//! The REST API: what a request is routed to.
//!
//! The embedding surface for SDKs, the desktop app and plain HTTP. Routing,
//! authentication and the checks on a request are decided here, on the parts
//! of the request; the server that holds the connection does the rest.

use crate::dns::IpAddr;
use crate::net::{is_loopback, loopback};
use crate::snapshots::SnapMode;
use crate::text::{
    cat2, cat3, from_chars, owned, parse_u64, same, split_char, starts_with, strip_prefix, to_chars,
};
use crate::vessels::{dir_of, name_problem};
use vstd::prelude::*;
use vstd::string::StrSliceExecFns;

verus! {

pub const DEFAULT_API_PORT: u16 = 7440;

/// Cap on a request's body.
pub const MAX_BODY: usize = 1048576;

/// Defaults of a request to create a vessel.
pub const DEFAULT_CPUS: u32 = 2;

pub const DEFAULT_MEM_MIB: u64 = 2048;

pub const DEFAULT_DATA_GIB: u64 = 16;

pub const DEFAULT_ROOTFS_MB: u64 = 4096;

/// How much of the console a request gets that does not say.
pub const DEFAULT_TAIL: u64 = 16384;

/// Branches per request.
pub const MAX_BRANCHES: u32 = 64;

#[derive(Debug, Clone, Copy, PartialEq, Eq, Structural)]
pub enum Method {
    Get,
    Post,
    Delete,
    Options,
    Other,
}

/// Whether the API may listen on an address: other hosts reach it only behind
/// a token. An address that is none counts as another host's.
pub fn may_bind(ip: &Option<IpAddr>, token: &Option<String>) -> (r: bool)
    ensures
        r == (token is Some || (ip is Some && loopback(ip->0))),
{
    match ip {
        Some(a) => token.is_some() || is_loopback(a),
        None => token.is_some(),
    }
}

proof fn lemma_or_xor(acc: u8, x: u8, y: u8)
    ensures
        (acc | (x ^ y)) == 0 <==> acc == 0 && x == y,
{
    assert((acc | (x ^ y)) == 0 <==> acc == 0 && x == y) by (bit_vector);
}

/// Compare two tokens in a time that does not depend on where they differ.
pub fn token_eq(a: &str, b: &str) -> (r: bool)
    ensures
        r == (a@ == b@),
{
    let x: &[u8] = a.as_bytes();
    let y: &[u8] = b.as_bytes();
    proof {
        vstd::utf8::encode_utf8_decode_utf8(a@);
        vstd::utf8::encode_utf8_decode_utf8(b@);
    }
    if x.len() != y.len() {
        return false;
    }
    let mut acc: u8 = 0;
    let mut i: usize = 0;
    while i < x.len()
        invariant
            x@.len() == y@.len(),
            i <= x@.len(),
            acc == 0 <==> forall|j: int| 0 <= j < i ==> x@[j] == y@[j],
        decreases x@.len() - i,
    {
        proof {
            lemma_or_xor(acc, x@[i as int], y@[i as int]);
        }
        acc = acc | (x[i] ^ y[i]);
        i = i + 1;
    }
    if acc == 0 {
        assert(x@ =~= y@);
        true
    } else {
        proof {
            if x@ == y@ {
                assert(forall|j: int| 0 <= j < x@.len() ==> x@[j] == y@[j]);
            }
        }
        false
    }
}

/// Whether the authorization header carries the token.
pub open spec fn carries(auth: Option<Seq<char>>, token: Seq<char>) -> bool {
    auth is Some && crate::text::after_prefix(auth->0, "Bearer "@) == Some(token)
}

/// Whether a request may pass: there is no token, or it carries it.
pub fn authorized(auth: &Option<String>, token: &Option<String>) -> (r: bool)
    ensures
        r == (token is None || carries(crate::text::opt_view(*auth), token->0@)),
{
    match token {
        None => true,
        Some(t) => match auth {
            None => false,
            Some(h) => match strip_prefix(h.as_str(), "Bearer ") {
                Some(given) => token_eq(given.as_str(), t.as_str()),
                None => false,
            },
        },
    }
}

/// The path and query behind a plane's prefix, if the path is under it.
pub open spec fn plane_target(path: Seq<char>, query: Option<Seq<char>>, prefix: Seq<char>) -> Option<
    Seq<char>,
> {
    if path == prefix || crate::text::has_prefix(path, prefix + "/"@) {
        let rest = path.skip(prefix.len() as int);
        let target = if rest.len() == 0 {
            "/"@
        } else {
            rest
        };
        match query {
            Some(q) => Some(target + "?"@ + q),
            None => Some(target),
        }
    } else {
        None
    }
}

/// `/docker/foo` with its query as `/foo` with its query.
pub fn strip_plane(path: &str, query: &Option<String>, prefix: &str) -> (r: Option<String>)
    ensures
        crate::text::opt_view(r) == plane_target(path@, crate::text::opt_view(*query), prefix@),
{
    let under: String = cat2(prefix, "/");
    if !same(path, prefix) && !starts_with(path, under.as_str()) {
        return None;
    }
    let v: Vec<char> = to_chars(path);
    let n: usize = prefix.unicode_len();
    let rest: String = from_chars(&v, n, v.len());
    assert(rest@ =~= path@.skip(prefix@.len() as int));
    let target: String = if rest.as_str().unicode_len() == 0 { owned("/") } else { rest };
    match query {
        Some(q) => Some(cat3(target.as_str(), "?", q.as_str())),
        None => Some(target),
    }
}

/// What a request is routed to.
#[derive(Debug)]
pub enum Route {
    Healthz,
    /// A CORS preflight.
    Preflight,
    Unauthorized,
    /// Forward to the container engine under this path and query.
    Docker(String),
    /// Forward to the plain-HTTP apiserver.
    K8s(String),
    /// There is no plain-HTTP apiserver.
    NoK8s,
    Vessels(VesselsRoute),
    Status,
    Stats,
    Kubeconfig,
    Exec,
    Balloon,
    /// The container list, forwarded to the engine.
    Containers,
    NotFound,
}

/// A request on vessels.
#[derive(Debug)]
pub enum VesselsRoute {
    List,
    Create,
    Console { name: String, tail: u64 },
    Get { name: String },
    Delete { name: String, force: bool },
    Start { name: String },
    Stop { name: String },
    Exec { name: String },
    Snapshots { name: String },
    TakeSnapshot { name: String },
    RemoveSnapshot { name: String, label: String },
    Restore { name: String },
    Branch { name: String },
    NotFound,
}

pub enum VesselsTo {
    List,
    Create,
    Console { name: Seq<char>, tail: u64 },
    Get { name: Seq<char> },
    Delete { name: Seq<char>, force: bool },
    Start { name: Seq<char> },
    Stop { name: Seq<char> },
    Exec { name: Seq<char> },
    Snapshots { name: Seq<char> },
    TakeSnapshot { name: Seq<char> },
    RemoveSnapshot { name: Seq<char>, label: Seq<char> },
    Restore { name: Seq<char> },
    Branch { name: Seq<char> },
    NotFound,
}

pub enum RouteTo {
    Healthz,
    Preflight,
    Unauthorized,
    Docker(Seq<char>),
    K8s(Seq<char>),
    NoK8s,
    Vessels(VesselsTo),
    Status,
    Stats,
    Kubeconfig,
    Exec,
    Balloon,
    Containers,
    NotFound,
}

impl View for VesselsRoute {
    type V = VesselsTo;

    open spec fn view(&self) -> VesselsTo {
        match self {
            VesselsRoute::List => VesselsTo::List,
            VesselsRoute::Create => VesselsTo::Create,
            VesselsRoute::Console { name, tail } => VesselsTo::Console { name: name@, tail: *tail },
            VesselsRoute::Get { name } => VesselsTo::Get { name: name@ },
            VesselsRoute::Delete { name, force } => VesselsTo::Delete {
                name: name@,
                force: *force,
            },
            VesselsRoute::Start { name } => VesselsTo::Start { name: name@ },
            VesselsRoute::Stop { name } => VesselsTo::Stop { name: name@ },
            VesselsRoute::Exec { name } => VesselsTo::Exec { name: name@ },
            VesselsRoute::Snapshots { name } => VesselsTo::Snapshots { name: name@ },
            VesselsRoute::TakeSnapshot { name } => VesselsTo::TakeSnapshot { name: name@ },
            VesselsRoute::RemoveSnapshot { name, label } => VesselsTo::RemoveSnapshot {
                name: name@,
                label: label@,
            },
            VesselsRoute::Restore { name } => VesselsTo::Restore { name: name@ },
            VesselsRoute::Branch { name } => VesselsTo::Branch { name: name@ },
            VesselsRoute::NotFound => VesselsTo::NotFound,
        }
    }
}

impl View for Route {
    type V = RouteTo;

    open spec fn view(&self) -> RouteTo {
        match self {
            Route::Healthz => RouteTo::Healthz,
            Route::Preflight => RouteTo::Preflight,
            Route::Unauthorized => RouteTo::Unauthorized,
            Route::Docker(p) => RouteTo::Docker(p@),
            Route::K8s(p) => RouteTo::K8s(p@),
            Route::NoK8s => RouteTo::NoK8s,
            Route::Vessels(v) => RouteTo::Vessels(v@),
            Route::Status => RouteTo::Status,
            Route::Stats => RouteTo::Stats,
            Route::Kubeconfig => RouteTo::Kubeconfig,
            Route::Exec => RouteTo::Exec,
            Route::Balloon => RouteTo::Balloon,
            Route::Containers => RouteTo::Containers,
            Route::NotFound => RouteTo::NotFound,
        }
    }
}

/// Whether the query holds the pair.
pub open spec fn query_has(query: Seq<char>, pair: Seq<char>) -> bool {
    crate::text::split_on(query, '&').contains(pair)
}

/// The value of the first pair of the query with that prefix.
pub open spec fn query_value(pairs: Seq<Seq<char>>, prefix: Seq<char>) -> Option<Seq<char>>
    decreases pairs.len(),
{
    if pairs.len() == 0 {
        None
    } else if crate::text::after_prefix(pairs[0], prefix) is Some {
        crate::text::after_prefix(pairs[0], prefix)
    } else {
        query_value(pairs.skip(1), prefix)
    }
}

/// How much of the console the query asks for.
pub open spec fn tail_of(query: Seq<char>) -> u64 {
    match query_value(crate::text::split_on(query, '&'), "tail="@) {
        Some(v) => match crate::text::parse_dec(v, u64::MAX as nat) {
            Some(n) => n as u64,
            None => DEFAULT_TAIL,
        },
        None => DEFAULT_TAIL,
    }
}

fn tail(query: &str) -> (n: u64)
    ensures
        n == tail_of(query@),
{
    let pairs: Vec<String> = split_char(query, '&');
    let ghost pv = crate::text::views(pairs@);
    let mut i: usize = 0;
    assert(pv.skip(0) =~= pv);
    while i < pairs.len()
        invariant
            i <= pairs@.len(),
            pv == crate::text::views(pairs@),
            pv == crate::text::split_on(query@, '&'),
            query_value(pv.skip(i as int), "tail="@) == query_value(pv, "tail="@),
        decreases pairs@.len() - i,
    {
        let ghost cur = pv.skip(i as int);
        assert(cur[0] == pairs@[i as int]@);
        assert(cur.skip(1) =~= pv.skip(i as int + 1));
        match strip_prefix(pairs[i].as_str(), "tail=") {
            Some(v) => {
                return match parse_u64(v.as_str()) {
                    Some(n) => n,
                    None => DEFAULT_TAIL,
                };
            },
            None => {},
        }
        i = i + 1;
    }
    DEFAULT_TAIL
}

/// The route of a request on vessels, by the segments behind the prefix: none,
/// a name, a name and an action, or a name, an action and a label.
pub open spec fn vessels_route_of(method: Method, segs: Seq<Seq<char>>, query: Seq<char>) -> VesselsTo {
    let name = segs[0];
    let action = segs[1];
    if segs.len() == 0 {
        match method {
            Method::Get => VesselsTo::List,
            Method::Post => VesselsTo::Create,
            _ => VesselsTo::NotFound,
        }
    } else if segs.len() == 1 {
        match method {
            Method::Get => VesselsTo::Get { name },
            Method::Delete => VesselsTo::Delete { name, force: query_has(query, "force=true"@) },
            _ => VesselsTo::NotFound,
        }
    } else if segs.len() == 2 {
        match method {
            Method::Get => if action == "console"@ {
                VesselsTo::Console { name, tail: tail_of(query) }
            } else if action == "snapshots"@ {
                VesselsTo::Snapshots { name }
            } else {
                VesselsTo::NotFound
            },
            Method::Post => if action == "start"@ {
                VesselsTo::Start { name }
            } else if action == "stop"@ {
                VesselsTo::Stop { name }
            } else if action == "exec"@ {
                VesselsTo::Exec { name }
            } else if action == "snapshots"@ {
                VesselsTo::TakeSnapshot { name }
            } else if action == "restore"@ {
                VesselsTo::Restore { name }
            } else if action == "branch"@ {
                VesselsTo::Branch { name }
            } else {
                VesselsTo::NotFound
            },
            _ => VesselsTo::NotFound,
        }
    } else if segs.len() == 3 && method == Method::Delete && action == "snapshots"@ {
        VesselsTo::RemoveSnapshot { name, label: segs[2] }
    } else {
        VesselsTo::NotFound
    }
}

/// The segments of the path behind the vessels' prefix.
pub open spec fn segments(rest: Seq<char>) -> Seq<Seq<char>> {
    let r = crate::initramfs::without_slashes(rest);
    if r.len() == 0 {
        Seq::empty()
    } else {
        crate::text::split_on(r, '/')
    }
}

fn split_segments(rest: &str) -> (segs: Vec<String>)
    ensures
        crate::text::views(segs@) == segments(rest@),
{
    let r: String = crate::initramfs::norm(rest);
    if r.as_str().unicode_len() == 0 {
        let none: Vec<String> = Vec::new();
        assert(crate::text::views(none@) =~= Seq::empty());
        return none;
    }
    split_char(r.as_str(), '/')
}

/// Route a request on vessels.
pub fn vessels_route(method: Method, segs: &Vec<String>, query: &str) -> (r: VesselsRoute)
    ensures
        r@ == vessels_route_of(method, crate::text::views(segs@), query@),
{
    let ghost sv = crate::text::views(segs@);
    if segs.len() == 0 {
        return match method {
            Method::Get => VesselsRoute::List,
            Method::Post => VesselsRoute::Create,
            _ => VesselsRoute::NotFound,
        };
    }
    let name: String = owned(segs[0].as_str());
    assert(name@ == sv[0]);
    if segs.len() == 1 {
        return match method {
            Method::Get => VesselsRoute::Get { name },
            Method::Delete => {
                let pairs: Vec<String> = split_char(query, '&');
                let force: bool = crate::text::list_has(&pairs, "force=true");
                VesselsRoute::Delete { name, force }
            },
            _ => VesselsRoute::NotFound,
        };
    }
    let action: &str = segs[1].as_str();
    assert(action@ == sv[1]);
    if segs.len() == 2 {
        return match method {
            Method::Get => if same(action, "console") {
                VesselsRoute::Console { name, tail: tail(query) }
            } else if same(action, "snapshots") {
                VesselsRoute::Snapshots { name }
            } else {
                VesselsRoute::NotFound
            },
            Method::Post => if same(action, "start") {
                VesselsRoute::Start { name }
            } else if same(action, "stop") {
                VesselsRoute::Stop { name }
            } else if same(action, "exec") {
                VesselsRoute::Exec { name }
            } else if same(action, "snapshots") {
                VesselsRoute::TakeSnapshot { name }
            } else if same(action, "restore") {
                VesselsRoute::Restore { name }
            } else if same(action, "branch") {
                VesselsRoute::Branch { name }
            } else {
                VesselsRoute::NotFound
            },
            _ => VesselsRoute::NotFound,
        };
    }
    if segs.len() == 3 && method == Method::Delete && same(action, "snapshots") {
        let label: String = owned(segs[2].as_str());
        assert(label@ == sv[2]);
        return VesselsRoute::RemoveSnapshot { name, label };
    }
    VesselsRoute::NotFound
}

/// A request, as far as routing reads it.
#[derive(Debug)]
pub struct Request {
    pub method: Method,
    pub path: String,
    pub query: Option<String>,
    /// The authorization header, if it is text.
    pub authorization: Option<String>,
}

pub open spec fn no_query(q: Option<Seq<char>>) -> Seq<char> {
    match q {
        Some(s) => s,
        None => Seq::empty(),
    }
}

/// The endpoints proper.
pub open spec fn endpoint(method: Method, path: Seq<char>) -> RouteTo {
    if method == Method::Get && path == "/v1alpha1/status"@ {
        RouteTo::Status
    } else if method == Method::Get && path == "/v1alpha1/stats"@ {
        RouteTo::Stats
    } else if method == Method::Get && path == "/v1alpha1/kubeconfig"@ {
        RouteTo::Kubeconfig
    } else if method == Method::Post && path == "/v1alpha1/exec"@ {
        RouteTo::Exec
    } else if method == Method::Post && path == "/v1alpha1/balloon"@ {
        RouteTo::Balloon
    } else if method == Method::Get && path == "/v1alpha1/containers"@ {
        RouteTo::Containers
    } else {
        RouteTo::NotFound
    }
}

/// The route of a request. Liveness probes come before authentication,
/// everything else behind it: CORS preflights, the container plane, the
/// kubernetes plane, the vessels, the endpoints.
pub open spec fn route_of(r: Request, token: Option<Seq<char>>, kube: bool) -> RouteTo {
    let path = r.path@;
    let query = crate::text::opt_view(r.query);
    let docker = plane_target(path, query, "/docker"@);
    let k8s = plane_target(path, query, "/k8s"@);
    let vessels = crate::text::after_prefix(path, "/v1alpha1/vessels"@);
    if r.method == Method::Get && path == "/healthz"@ {
        RouteTo::Healthz
    } else if token is Some && !carries(crate::text::opt_view(r.authorization), token->0) {
        RouteTo::Unauthorized
    } else if r.method == Method::Options {
        RouteTo::Preflight
    } else if docker is Some {
        RouteTo::Docker(docker->0)
    } else if k8s is Some {
        if kube {
            RouteTo::K8s(k8s->0)
        } else {
            RouteTo::NoK8s
        }
    } else if vessels is Some {
        RouteTo::Vessels(vessels_route_of(r.method, segments(vessels->0), no_query(query)))
    } else {
        endpoint(r.method, path)
    }
}

/// Route a request. `kube` says whether the plain-HTTP apiserver's socket is
/// there.
pub fn route(r: &Request, token: &Option<String>, kube: bool) -> (to: Route)
    ensures
        to@ == route_of(*r, crate::text::opt_view(*token), kube),
{
    let path: &str = r.path.as_str();
    if r.method == Method::Get && same(path, "/healthz") {
        return Route::Healthz;
    }
    if !authorized(&r.authorization, token) {
        return Route::Unauthorized;
    }
    if r.method == Method::Options {
        return Route::Preflight;
    }
    match strip_plane(path, &r.query, "/docker") {
        Some(p) => {
            return Route::Docker(p);
        },
        None => {},
    }
    match strip_plane(path, &r.query, "/k8s") {
        Some(p) => {
            return if kube {
                Route::K8s(p)
            } else {
                Route::NoK8s
            };
        },
        None => {},
    }
    match strip_prefix(path, "/v1alpha1/vessels") {
        Some(rest) => {
            let segs: Vec<String> = split_segments(rest.as_str());
            let query: String = match &r.query {
                Some(q) => owned(q.as_str()),
                None => String::new(),
            };
            return Route::Vessels(vessels_route(r.method, &segs, query.as_str()));
        },
        None => {},
    }
    match r.method {
        Method::Get => if same(path, "/v1alpha1/status") {
            Route::Status
        } else if same(path, "/v1alpha1/stats") {
            Route::Stats
        } else if same(path, "/v1alpha1/kubeconfig") {
            Route::Kubeconfig
        } else if same(path, "/v1alpha1/containers") {
            Route::Containers
        } else {
            Route::NotFound
        },
        Method::Post => if same(path, "/v1alpha1/exec") {
            Route::Exec
        } else if same(path, "/v1alpha1/balloon") {
            Route::Balloon
        } else {
            Route::NotFound
        },
        _ => Route::NotFound,
    }
}

/// With a token set, a request without it reaches nothing but the liveness
/// probe: it is answered as unauthorized.
pub proof fn nothing_without_the_token(r: Request, token: Seq<char>, kube: bool)
    requires
        !carries(crate::text::opt_view(r.authorization), token),
    ensures
        ({
            let to = route_of(r, Some(token), kube);
            if r.method == Method::Get && r.path@ == "/healthz"@ {
                to is Healthz
            } else {
                to is Unauthorized && refusal_of(to) == Some((401u16, "unauthorized"@))
            }
        }),
{
}

/// An answer that is an error.
#[derive(Debug)]
pub struct HttpError {
    pub status: u16,
    pub message: String,
}

impl HttpError {
    pub open spec fn says(self, status: u16, message: Seq<char>) -> bool {
        self.status == status && self.message@ == message
    }
}

fn http_error(status: u16, message: &str) -> (e: HttpError)
    ensures
        e.says(status, message@),
{
    HttpError { status, message: owned(message) }
}

/// Where the root file system of a vessel to create comes from.
#[derive(Debug, Clone, Copy, PartialEq, Eq, Structural)]
pub enum RootfsFrom {
    /// Built from a container image.
    Image,
    /// Cloned from a file on the host.
    File,
    /// The installed base image.
    Base,
}

/// What a new vessel's root comes from, or why it is refused.
pub open spec fn creation_checked(
    name: Seq<char>,
    from_image: bool,
    rootfs_img: Option<String>,
    there: bool,
    is_file: bool,
    r: Result<RootfsFrom, HttpError>,
) -> bool {
    match r {
        Ok(from) => !(from_image && rootfs_img is Some) && name_problem(name) is None
            && !there && (!from_image && rootfs_img is Some ==> is_file) && from == (
        if from_image {
            RootfsFrom::Image
        } else if rootfs_img is Some {
            RootfsFrom::File
        } else {
            RootfsFrom::Base
        }),
        Err(e) => if from_image && rootfs_img is Some {
            e.says(400, "from_image and rootfs_img are mutually exclusive"@)
        } else if name_problem(name) is Some {
            e.says(400, name_problem(name)->0.text())
        } else if there {
            e.says(409, "vessel `"@ + name + "` already exists"@)
        } else {
            !from_image && rootfs_img is Some && !is_file && e.says(
                400,
                "no rootfs image at "@ + rootfs_img->0@,
            )
        },
    }
}

/// Check a request to create a vessel: `exists` says whether the vessel's
/// directory is there, `is_file` whether the root image that is named is one.
pub fn create_request(
    home: &str,
    name: &str,
    from_image: bool,
    rootfs_img: &Option<String>,
    exists: bool,
    is_file: bool,
) -> (r: Result<RootfsFrom, HttpError>)
    ensures
        creation_checked(name@, from_image, *rootfs_img, exists, is_file, r),
{
    if from_image && rootfs_img.is_some() {
        return Err(http_error(400, "from_image and rootfs_img are mutually exclusive"));
    }
    match dir_of(home, name) {
        Err(e) => {
            return Err(HttpError { status: 400, message: e.message() });
        },
        Ok(_) => {},
    }
    if exists {
        return Err(
            HttpError { status: 409, message: cat3("vessel `", name, "` already exists") },
        );
    }
    if from_image {
        return Ok(RootfsFrom::Image);
    }
    match rootfs_img {
        Some(src) => {
            if !is_file {
                return Err(
                    HttpError {
                        status: 400,
                        message: cat2("no rootfs image at ", src.as_str()),
                    },
                );
            }
            Ok(RootfsFrom::File)
        },
        None => Ok(RootfsFrom::Base),
    }
}

/// The snapshot mode that a request names.
pub fn snap_mode(mode: &Option<String>) -> (r: Result<SnapMode, HttpError>)
    ensures
        ({
            let m = crate::text::opt_view(*mode);
            match r {
                Ok(SnapMode::Auto) => m is None || m == Some("auto"@),
                Ok(SnapMode::Memory) => m == Some("memory"@),
                Ok(SnapMode::DiskOnly) => m == Some("disk"@),
                Err(e) => m is Some && m->0 != "auto"@ && m->0 != "memory"@ && m->0 != "disk"@
                    && e.says(400, "mode must be auto|memory|disk, got "@ + m->0),
            }
        }),
{
    match mode {
        None => Ok(SnapMode::Auto),
        Some(m) => if same(m.as_str(), "auto") {
            Ok(SnapMode::Auto)
        } else if same(m.as_str(), "memory") {
            Ok(SnapMode::Memory)
        } else if same(m.as_str(), "disk") {
            Ok(SnapMode::DiskOnly)
        } else {
            Err(
                HttpError {
                    status: 400,
                    message: cat2("mode must be auto|memory|disk, got ", m.as_str()),
                },
            )
        },
    }
}

/// Check the number of branches that a request asks for.
pub fn branch_count(count: u32) -> (r: Result<u32, HttpError>)
    ensures
        match r {
            Ok(n) => n == count && count <= MAX_BRANCHES,
            Err(e) => count > MAX_BRANCHES && e.says(400, "count must be <= 64 per request"@),
        },
{
    if count > MAX_BRANCHES {
        return Err(http_error(400, "count must be <= 64 per request"));
    }
    Ok(count)
}

/// Where the last `tail` bytes of a log of `len` bytes start.
pub fn console_start(len: usize, tail: u64) -> (start: usize)
    ensures
        start == (if tail >= len { 0 } else { (len - tail) as usize }),
{
    if tail >= len as u64 {
        0
    } else {
        len - tail as usize
    }
}

/// The answer to a request that its route refuses: a status and a message.
pub open spec fn refusal_of(to: RouteTo) -> Option<(u16, Seq<char>)> {
    match to {
        RouteTo::Unauthorized => Some((401u16, "unauthorized"@)),
        RouteTo::NoK8s => Some(
            (501u16, "no plain-HTTP apiserver (k3s guest?) — use /v1alpha1/kubeconfig"@),
        ),
        RouteTo::NotFound => Some((404u16, "not found"@)),
        RouteTo::Vessels(VesselsTo::NotFound) => Some((404u16, "not found"@)),
        _ => None,
    }
}

/// How a request is answered that its route refuses; none where the route
/// leads on.
pub fn refusal(to: &Route) -> (r: Option<HttpError>)
    ensures
        match refusal_of(to@) {
            Some((status, message)) => r is Some && r->0.says(status, message),
            None => r is None,
        },
{
    match to {
        Route::Unauthorized => Some(http_error(401, "unauthorized")),
        Route::NoK8s => Some(
            http_error(501, "no plain-HTTP apiserver (k3s guest?) — use /v1alpha1/kubeconfig"),
        ),
        Route::NotFound => Some(http_error(404, "not found")),
        Route::Vessels(v) => match v {
            VesselsRoute::NotFound => Some(http_error(404, "not found")),
            _ => None,
        },
        _ => None,
    }
}

/// Why a request that was routed came to nothing.
#[derive(Debug)]
pub enum Failure {
    /// The body exceeds the cap.
    BodyTooLarge,
    /// The body could not be read.
    BadBody(String),
    /// The directory of a vessel could not be made.
    NoVesselDir,
    /// An operation on a vessel failed.
    Vessel(String),
    /// The engine could not be reached.
    Engine(String),
    /// The guest's agent reported an error.
    Agent(String),
    /// The guest's agent answered with something else.
    Unexpected(String),
    /// The operation crashed.
    Crashed(String),
    /// There is no kubeconfig yet.
    NoKubeconfig,
    /// The socket of a plane could not be reached.
    Socket(String),
    /// The plane did not speak HTTP.
    Handshake(String),
    /// What is left of the path is no path.
    BadPath(String),
    /// The plane did not answer.
    Plane(String),
}

impl Failure {
    /// The status and the message of the answer.
    pub open spec fn answered(self) -> (u16, Seq<char>) {
        match self {
            Failure::BodyTooLarge => (400u16, "body too large"@),
            Failure::BadBody(e) => (400u16, e@),
            Failure::NoVesselDir => (500u16, "cannot create vessel dir"@),
            Failure::Vessel(e) => (409u16, e@),
            Failure::Engine(e) => (502u16, e@),
            Failure::Agent(e) => (500u16, e@),
            Failure::Unexpected(e) => (500u16, "unexpected: "@ + e@),
            Failure::Crashed(e) => (500u16, e@),
            Failure::NoKubeconfig => (
                404u16,
                "no kubeconfig — run `nebula kube up` (or POST /v1alpha1/exec) first"@,
            ),
            Failure::Socket(e) => (502u16, "engine socket: "@ + e@),
            Failure::Handshake(e) => (502u16, "docker handshake: "@ + e@),
            Failure::BadPath(e) => (400u16, "bad path: "@ + e@),
            Failure::Plane(e) => (502u16, "docker request: "@ + e@),
        }
    }

    /// How the failure is answered.
    pub fn answer(&self) -> (e: HttpError)
        ensures
            ({
                let (status, message) = self.answered();
                e.says(status, message)
            }),
    {
        match self {
            Failure::BodyTooLarge => http_error(400, "body too large"),
            Failure::BadBody(e) => http_error(400, e.as_str()),
            Failure::NoVesselDir => http_error(500, "cannot create vessel dir"),
            Failure::Vessel(e) => http_error(409, e.as_str()),
            Failure::Engine(e) => http_error(502, e.as_str()),
            Failure::Agent(e) => http_error(500, e.as_str()),
            Failure::Unexpected(e) => http_error(500, cat2("unexpected: ", e.as_str()).as_str()),
            Failure::Crashed(e) => http_error(500, e.as_str()),
            Failure::NoKubeconfig => http_error(
                404,
                "no kubeconfig — run `nebula kube up` (or POST /v1alpha1/exec) first",
            ),
            Failure::Socket(e) => http_error(502, cat2("engine socket: ", e.as_str()).as_str()),
            Failure::Handshake(e) => http_error(
                502,
                cat2("docker handshake: ", e.as_str()).as_str(),
            ),
            Failure::BadPath(e) => http_error(400, cat2("bad path: ", e.as_str()).as_str()),
            Failure::Plane(e) => http_error(502, cat2("docker request: ", e.as_str()).as_str()),
        }
    }
}

// What reaches what.

/// A request carries a token just where its header is `Bearer` and the token.
pub proof fn what_carries_a_token(auth: Option<Seq<char>>, token: Seq<char>)
    ensures
        carries(auth, token) <==> auth == Some("Bearer "@ + token),
{
    crate::text::what_is_behind_a_prefix("Bearer "@ + token, "Bearer "@, token);
    if auth is Some {
        crate::text::what_is_behind_a_prefix(auth->0, "Bearer "@, token);
    }
}

/// A plane gets what stands behind its prefix, from the slash on, and the query
/// behind that; the prefix alone is its root. A longer word is no such prefix.
pub proof fn what_a_plane_gets(path: Seq<char>, query: Option<Seq<char>>, prefix: Seq<char>, rest: Seq<char>)
    ensures
        plane_target(prefix, None, prefix) == Some("/"@),
        plane_target(prefix + "/"@ + rest, None, prefix) == Some("/"@ + rest),
        query matches Some(q) ==> plane_target(prefix + "/"@ + rest, query, prefix) == Some(
            "/"@ + rest + "?"@ + q,
        ),
        plane_target(path, query, prefix) is Some <==> (path == prefix || exists|t: Seq<char>|
            path == #[trigger] (prefix + "/"@ + t)),
{
    reveal_strlit("/");
    let p = prefix + "/"@ + rest;
    let n = prefix.len() as int;
    assert(p.subrange(0, n + 1) =~= prefix + "/"@);
    assert(p.skip(n) =~= "/"@ + rest);
    assert(prefix.skip(n) =~= Seq::empty());
    if crate::text::has_prefix(path, prefix + "/"@) {
        let t = path.skip(n + 1);
        assert forall|i: int| 0 <= i <= n implies path[i] == (prefix + "/"@)[i] by {
            assert(path.subrange(0, n + 1)[i] == path[i]);
        }
        assert(path =~= prefix + "/"@ + t);
    }
    if exists|t: Seq<char>| path == #[trigger] (prefix + "/"@ + t) {
        let t = choose|t: Seq<char>| path == #[trigger] (prefix + "/"@ + t);
        assert(path.subrange(0, n + 1) =~= prefix + "/"@);
    }
}

/// The path behind the vessels' prefix is taken apart at its slashes.
pub proof fn how_a_path_is_taken_apart(name: Seq<char>, action: Seq<char>, label: Seq<char>)
    requires
        name.len() > 0,
        !name.contains('/'),
        !action.contains('/'),
        !label.contains('/'),
    ensures
        segments(Seq::empty()) == Seq::<Seq<char>>::empty(),
        segments(seq!['/']) == Seq::<Seq<char>>::empty(),
        segments(seq!['/'] + name) == seq![name],
        segments(seq!['/'] + name.push('/') + action) == seq![name, action],
        segments(seq!['/'] + name.push('/') + action.push('/') + label) == seq![name, action, label],
{
    reveal_with_fuel(crate::initramfs::without_slashes, 2);
    assert(name[0] != '/') by {
        assert(name.contains(name[0]));
    }
    let a = seq!['/'] + name;
    let b = seq!['/'] + name.push('/') + action;
    let c = seq!['/'] + name.push('/') + action.push('/') + label;
    assert(seq!['/'].skip(1) =~= Seq::empty());
    assert(a.skip(1) =~= name);
    assert(b.skip(1) =~= name.push('/') + action);
    assert(c.skip(1) =~= name.push('/') + (action.push('/') + label));
    crate::text::a_piece_splits_off(name, action, '/');
    crate::text::a_piece_splits_off(name, action.push('/') + label, '/');
    crate::text::a_piece_splits_off(action, label, '/');
    crate::text::a_piece_splits_off(label, label, '/');
    assert(seq![name] + seq![action] =~= seq![name, action]);
    assert(seq![name] + (seq![action] + seq![label]) =~= seq![name, action, label]);
}

/// What each request on vessels asks for, by its method and the words of its
/// path.
pub proof fn what_is_asked_of_vessels(name: Seq<char>, label: Seq<char>, query: Seq<char>)
    ensures
        vessels_route_of(Method::Get, seq![], query) == VesselsTo::List,
        vessels_route_of(Method::Post, seq![], query) == VesselsTo::Create,
        vessels_route_of(Method::Get, seq![name], query) == (VesselsTo::Get { name }),
        vessels_route_of(Method::Delete, seq![name], query) == (VesselsTo::Delete {
            name,
            force: query_has(query, "force=true"@),
        }),
        vessels_route_of(Method::Get, seq![name, "console"@], query) == (VesselsTo::Console {
            name,
            tail: tail_of(query),
        }),
        vessels_route_of(Method::Get, seq![name, "snapshots"@], query) == (VesselsTo::Snapshots {
            name,
        }),
        vessels_route_of(Method::Post, seq![name, "start"@], query) == (VesselsTo::Start { name }),
        vessels_route_of(Method::Post, seq![name, "stop"@], query) == (VesselsTo::Stop { name }),
        vessels_route_of(Method::Post, seq![name, "exec"@], query) == (VesselsTo::Exec { name }),
        vessels_route_of(Method::Post, seq![name, "snapshots"@], query) == (VesselsTo::TakeSnapshot {
            name,
        }),
        vessels_route_of(Method::Post, seq![name, "restore"@], query) == (VesselsTo::Restore { name }),
        vessels_route_of(Method::Post, seq![name, "branch"@], query) == (VesselsTo::Branch { name }),
        vessels_route_of(Method::Delete, seq![name, "snapshots"@, label], query) == (
        VesselsTo::RemoveSnapshot { name, label }),
{
    reveal_strlit("console");
    reveal_strlit("snapshots");
    reveal_strlit("start");
    reveal_strlit("stop");
    reveal_strlit("exec");
    reveal_strlit("restore");
    reveal_strlit("branch");
    assert("console"@.len() == 7 && "snapshots"@.len() == 9 && "start"@.len() == 5 && "stop"@.len()
        == 4 && "exec"@.len() == 4 && "restore"@.len() == 7 && "branch"@.len() == 6);
    assert("stop"@[0] == 's' && "exec"@[0] == 'e');
    assert("restore"@[0] == 'r' && "console"@[0] == 'c');
}

/// Only a request to delete a vessel deletes one, and only one to remove a
/// snapshot removes one; each of the vessel that its path names.
pub proof fn what_deletes(method: Method, segs: Seq<Seq<char>>, query: Seq<char>)
    ensures
        vessels_route_of(method, segs, query) matches VesselsTo::Delete { name, force } ==> method
            == Method::Delete && segs.len() == 1 && name == segs[0] && (force <==> query_has(
            query,
            "force=true"@,
        )),
        vessels_route_of(method, segs, query) matches VesselsTo::RemoveSnapshot { name, label }
            ==> method == Method::Delete && segs.len() == 3 && name == segs[0] && segs[1]
            == "snapshots"@ && label == segs[2],
        method == Method::Get ==> !(vessels_route_of(method, segs, query) is Create)
            && !(vessels_route_of(method, segs, query) is Start) && !(vessels_route_of(
            method,
            segs,
            query,
        ) is Stop) && !(vessels_route_of(method, segs, query) is Exec) && !(vessels_route_of(
            method,
            segs,
            query,
        ) is TakeSnapshot) && !(vessels_route_of(method, segs, query) is Restore)
            && !(vessels_route_of(method, segs, query) is Branch),
{
}

/// A query holds a pair just where one of its parts is that pair.
pub proof fn what_a_query_holds(first: Seq<char>, rest: Seq<char>, pair: Seq<char>)
    requires
        !first.contains('&'),
    ensures
        query_has(first, pair) <==> first == pair,
        query_has(first.push('&') + rest, pair) <==> (first == pair || query_has(rest, pair)),
{
    crate::text::a_piece_splits_off(first, rest, '&');
    let r = crate::text::split_on(rest, '&');
    let all = seq![first] + r;
    assert(seq![first][0] == first);
    assert(all[0] == first);
    if r.contains(pair) {
        let i = choose|i: int| 0 <= i < r.len() && r[i] == pair;
        assert(all[i + 1] == pair);
    }
    if all.contains(pair) && first != pair {
        let i = choose|i: int| 0 <= i < all.len() && all[i] == pair;
        assert(r[i - 1] == pair);
    }
}

/// The query says how much of the console to give; without it 16 KiB are given.
pub proof fn how_much_of_the_console(n: u64, other: Seq<char>)
    requires
        !other.contains('&'),
        !crate::text::has_prefix(other, "tail="@),
    ensures
        tail_of("tail="@ + crate::text::decimal(n as nat)) == n,
        tail_of(other.push('&') + ("tail="@ + crate::text::decimal(n as nat))) == n,
        tail_of(other) == 16384,
{
    reveal_strlit("tail=");
    let d = crate::text::decimal(n as nat);
    let t = "tail="@ + d;
    crate::text::decimal_reads_back(n as nat);
    assert(crate::text::parse_dec(d, u64::MAX as nat) == Some(n as nat));
    assert(!t.contains('&')) by {
        assert forall|i: int| 0 <= i < t.len() implies t[i] != '&' by {
            if i >= 5 {
                assert(crate::text::is_digit(d[i - 5]));
            }
        }
    }
    crate::text::a_piece_splits_off(t, other, '&');
    crate::text::a_piece_splits_off(other, t, '&');
    crate::text::what_is_behind_a_prefix(t, "tail="@, d);
    crate::text::what_is_behind_a_prefix(other, "tail="@, d);
    reveal_with_fuel(query_value, 3);
    assert((seq![other] + seq![t]).skip(1) =~= seq![t]);
    assert(seq![other].skip(1) =~= Seq::empty());
}

/// With no token, or with it, every path leads where it should: probes, planes,
/// vessels and endpoints each to their own.
pub proof fn where_a_request_leads(r: Request, token: Option<Seq<char>>, kube: bool, rest: Seq<char>)
    requires
        token matches Some(t) ==> r.authorization is Some && r.authorization->0@ == "Bearer "@ + t,
        r.method != Method::Options,
    ensures
        ({
            let to = route_of(r, token, kube);
            let get = r.method == Method::Get;
            let post = r.method == Method::Post;
            &&& r.path@ == "/docker/"@ + rest && r.query is None ==> to == RouteTo::Docker(
                "/"@ + rest,
            )
            &&& r.path@ == "/k8s/"@ + rest && r.query is None && kube ==> to == RouteTo::K8s(
                "/"@ + rest,
            )
            &&& r.path@ == "/k8s/"@ + rest && !kube ==> to == RouteTo::NoK8s
            &&& r.path@ == "/v1alpha1/vessels"@ + rest ==> to == RouteTo::Vessels(
                vessels_route_of(
                    r.method,
                    segments(rest),
                    match r.query {
                        Some(q) => q@,
                        None => Seq::empty(),
                    },
                ),
            )
            &&& get && r.path@ == "/healthz"@ ==> to == RouteTo::Healthz
            &&& get && r.path@ == "/v1alpha1/status"@ ==> to == RouteTo::Status
            &&& get && r.path@ == "/v1alpha1/stats"@ ==> to == RouteTo::Stats
            &&& get && r.path@ == "/v1alpha1/kubeconfig"@ ==> to == RouteTo::Kubeconfig
            &&& get && r.path@ == "/v1alpha1/containers"@ ==> to == RouteTo::Containers
            &&& post && r.path@ == "/v1alpha1/exec"@ ==> to == RouteTo::Exec
            &&& post && r.path@ == "/v1alpha1/balloon"@ ==> to == RouteTo::Balloon
        }),
{
    if token is Some {
        what_carries_a_token(crate::text::opt_view(r.authorization), token->0);
    }
    reveal_strlit("/");
    reveal_strlit("/docker");
    reveal_strlit("/docker/");
    reveal_strlit("/k8s");
    reveal_strlit("/k8s/");
    reveal_strlit("/healthz");
    reveal_strlit("/v1alpha1/vessels");
    reveal_strlit("/v1alpha1/status");
    reveal_strlit("/v1alpha1/stats");
    reveal_strlit("/v1alpha1/kubeconfig");
    reveal_strlit("/v1alpha1/containers");
    reveal_strlit("/v1alpha1/exec");
    reveal_strlit("/v1alpha1/balloon");
    let path = r.path@;
    assert("/docker/"@ + rest =~= "/docker"@ + "/"@ + rest);
    assert("/k8s/"@ + rest =~= "/k8s"@ + "/"@ + rest);
    what_a_plane_gets(path, crate::text::opt_view(r.query), "/docker"@, rest);
    what_a_plane_gets(path, crate::text::opt_view(r.query), "/k8s"@, rest);
    crate::text::what_is_behind_a_prefix(path, "/v1alpha1/vessels"@, rest);
    lemma_no_prefix(path);
    let (v, k) = ("/v1alpha1/vessels"@, "/healthz"@);
    assert(k[1] == 'h');
    assert("/docker/"@[1] == 'd' && "/k8s/"@[1] == 'k' && v[1] == 'v');
    assert(("/docker/"@ + rest)[1] == 'd');
    assert(("/k8s/"@ + rest)[1] == 'k');
    assert((v + rest)[1] == 'v');
    lemma_endpoints(path);
}

proof fn lemma_endpoints(path: Seq<char>)
    ensures
        path == "/healthz"@ ==> path.len() > 1 && path[1] == 'h',
        path == "/v1alpha1/status"@ ==> path.len() == 16 && path[1] == 'v' && path[10] == 's',
        path == "/v1alpha1/stats"@ ==> path.len() == 15 && path[1] == 'v' && path[10] == 's',
        path == "/v1alpha1/kubeconfig"@ ==> path.len() == 20 && path[1] == 'v' && path[10] == 'k',
        path == "/v1alpha1/containers"@ ==> path.len() == 20 && path[1] == 'v' && path[10] == 'c',
        path == "/v1alpha1/exec"@ ==> path.len() == 14 && path[1] == 'v' && path[10] == 'e',
        path == "/v1alpha1/balloon"@ ==> path.len() == 17 && path[1] == 'v' && path[10] == 'b',
{
    reveal_strlit("/healthz");
    reveal_strlit("/v1alpha1/status");
    reveal_strlit("/v1alpha1/stats");
    reveal_strlit("/v1alpha1/kubeconfig");
    reveal_strlit("/v1alpha1/containers");
    reveal_strlit("/v1alpha1/exec");
    reveal_strlit("/v1alpha1/balloon");
}

proof fn lemma_no_prefix(path: Seq<char>)
    ensures
        path.len() > 1 && path[1] != 'd' ==> plane_target(path, None, "/docker"@) is None,
        path.len() > 1 && path[1] != 'k' ==> plane_target(path, None, "/k8s"@) is None,
        forall|q: Option<Seq<char>>|
            path.len() > 1 && path[1] != 'd' ==> #[trigger] plane_target(
                path,
                q,
                "/docker"@,
            ) is None,
        forall|q: Option<Seq<char>>|
            path.len() > 1 && path[1] != 'k' ==> #[trigger] plane_target(path, q, "/k8s"@) is None,
        path.len() > 10 && path[10] != 'v' ==> crate::text::after_prefix(
            path,
            "/v1alpha1/vessels"@,
        ) is None,
{
    reveal_strlit("/");
    reveal_strlit("/docker");
    reveal_strlit("/k8s");
    reveal_strlit("/v1alpha1/vessels");
    if path.len() > 1 {
        if crate::text::has_prefix(path, "/docker"@ + "/"@) {
            assert(path.subrange(0, 8)[1] == path[1]);
            assert(("/docker"@ + "/"@)[1] == 'd');
        }
        if crate::text::has_prefix(path, "/k8s"@ + "/"@) {
            assert(path.subrange(0, 5)[1] == path[1]);
            assert(("/k8s"@ + "/"@)[1] == 'k');
        }
    }
    if crate::text::has_prefix(path, "/v1alpha1/vessels"@) {
        assert(path.subrange(0, 17)[10] == path[10]);
        assert("/v1alpha1/vessels"@[10] == 'v');
    }
}

/// A vessel is created from one source under a name that is free and allowed;
/// what is wrong with a request is the request's fault, and a name that is taken
/// is a conflict.
pub proof fn what_a_vessel_is_created_from(
    name: Seq<char>,
    from_image: bool,
    rootfs_img: Option<String>,
    there: bool,
    is_file: bool,
    r: Result<RootfsFrom, HttpError>,
)
    requires
        creation_checked(name, from_image, rootfs_img, there, is_file, r),
    ensures
        r is Ok <==> !(from_image && rootfs_img is Some) && name_problem(name) is None && !there && (
        rootfs_img is Some ==> is_file),
        r matches Ok(from) ==> (from is Image <==> from_image) && (from is File
            <==> rootfs_img is Some),
        r matches Err(e) ==> (e.status == 400 || e.status == 409) && (e.status == 409 ==> there),
        name_problem(name) is None && there && !(from_image && rootfs_img is Some) ==> (
        r matches Err(e) && e.status == 409),
{
}

} // verus!

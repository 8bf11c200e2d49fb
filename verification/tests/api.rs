use nebula::api::{
    authorized, branch_count, console_start, create_request, may_bind, refusal, route, snap_mode,
    strip_plane, token_eq, vessels_route, Failure, Method, Request, RootfsFrom, Route, VesselsRoute,
};
use nebula::dns::IpAddr;
use nebula::snapshots::SnapMode;

fn req(method: Method, path: &str) -> Request {
    Request { method, path: path.into(), query: None, authorization: None }
}

fn name(r: &Route) -> String {
    format!("{r:?}")
}

#[test]
fn only_the_loopback_goes_without_a_token() {
    let local = Some(IpAddr::V4([127, 0, 0, 1]));
    assert!(may_bind(&local, &None));
    assert!(!may_bind(&Some(IpAddr::V4([0, 0, 0, 0])), &None));
    assert!(!may_bind(&None, &None));
    assert!(may_bind(&None, &Some("t".into())));
}

#[test]
fn tokens_are_compared_whole() {
    assert!(token_eq("abc", "abc"));
    assert!(!token_eq("abc", "abd"));
    assert!(!token_eq("abc", "ab"));
    let t = Some("s3".to_string());
    assert!(authorized(&Some("Bearer s3".into()), &t));
    assert!(!authorized(&Some("Bearer s4".into()), &t));
    assert!(!authorized(&Some("s3".into()), &t));
    assert!(!authorized(&None, &t));
    assert!(authorized(&None, &None));
}

#[test]
fn nothing_but_liveness_goes_without_the_token() {
    let t = Some("s3".to_string());
    assert_eq!(name(&route(&req(Method::Get, "/healthz"), &t, true)), "Healthz");
    let options = req(Method::Options, "/docker/x");
    assert_eq!(name(&route(&options, &t, true)), "Unauthorized");
    assert_eq!(name(&route(&options, &None, true)), "Preflight");
    let with = Request { authorization: Some("Bearer s3".into()), ..options };
    assert_eq!(name(&route(&with, &t, true)), "Preflight");
    for p in ["/v1alpha1/status", "/docker/info", "/k8s/api", "/v1alpha1/vessels", "/nope"] {
        assert_eq!(name(&route(&req(Method::Get, p), &t, true)), "Unauthorized");
    }
    assert_eq!(name(&route(&req(Method::Post, "/healthz"), &t, true)), "Unauthorized");
}

#[test]
fn routes_are_found() {
    let go = |m: Method, p: &str| name(&route(&req(m, p), &None, true));
    assert_eq!(go(Method::Get, "/v1alpha1/status"), "Status");
    assert_eq!(go(Method::Get, "/v1alpha1/stats"), "Stats");
    assert_eq!(go(Method::Get, "/v1alpha1/kubeconfig"), "Kubeconfig");
    assert_eq!(go(Method::Post, "/v1alpha1/exec"), "Exec");
    assert_eq!(go(Method::Post, "/v1alpha1/balloon"), "Balloon");
    assert_eq!(go(Method::Get, "/v1alpha1/containers"), "Containers");
    assert_eq!(go(Method::Post, "/v1alpha1/status"), "NotFound");
    assert_eq!(go(Method::Get, "/docker/info"), "Docker(\"/info\")");
    assert_eq!(go(Method::Get, "/docker"), "Docker(\"/\")");
    assert_eq!(go(Method::Get, "/dockerx"), "NotFound");
    assert_eq!(go(Method::Get, "/k8s/api"), "K8s(\"/api\")");
    assert_eq!(name(&route(&req(Method::Get, "/k8s/api"), &None, false)), "NoK8s");
    assert_eq!(go(Method::Get, "/v1alpha1/vessels/"), "Vessels(List)");
    assert_eq!(go(Method::Get, "/v1alpha1/vessels//web"), "Vessels(Get { name: \"web\" })");
}

#[test]
fn planes_keep_the_query() {
    assert_eq!(strip_plane("/docker/a/b", &Some("all=1".into()), "/docker").as_deref(), Some("/a/b?all=1"));
    assert_eq!(strip_plane("/docker", &None, "/docker").as_deref(), Some("/"));
    assert_eq!(strip_plane("/dock", &None, "/docker"), None);
}

#[test]
fn vessels_are_routed_by_action() {
    let go = |m: Method, rest: &str, q: &str| {
        let segs: Vec<String> = if rest.is_empty() { vec![] } else { rest.split('/').map(String::from).collect() };
        format!("{:?}", vessels_route(m, &segs, q))
    };
    assert_eq!(go(Method::Post, "", ""), "Create");
    assert_eq!(go(Method::Get, "a/console", "x=1&tail=5"), "Console { name: \"a\", tail: 5 }");
    assert_eq!(go(Method::Get, "a/console", "tail=x"), "Console { name: \"a\", tail: 16384 }");
    assert_eq!(go(Method::Delete, "a", "force=true"), "Delete { name: \"a\", force: true }");
    assert_eq!(go(Method::Delete, "a", "force=1"), "Delete { name: \"a\", force: false }");
    for (action, to) in [
        ("start", "Start"),
        ("stop", "Stop"),
        ("exec", "Exec"),
        ("snapshots", "TakeSnapshot"),
        ("restore", "Restore"),
        ("branch", "Branch"),
    ] {
        assert_eq!(go(Method::Post, &format!("a/{action}"), ""), format!("{to} {{ name: \"a\" }}"));
    }
    assert_eq!(go(Method::Get, "a/snapshots", ""), "Snapshots { name: \"a\" }");
    assert_eq!(go(Method::Delete, "a/snapshots/l", ""), "RemoveSnapshot { name: \"a\", label: \"l\" }");
    assert_eq!(go(Method::Get, "a/b/c", ""), "NotFound");
    assert!(matches!(vessels_route(Method::Other, &vec![], ""), VesselsRoute::NotFound));
}

#[test]
fn creation_requests_are_judged() {
    let ok = |from_image, img: Option<&str>| {
        create_request("/n", "web", from_image, &img.map(String::from), false, true)
    };
    assert!(matches!(ok(true, None), Ok(RootfsFrom::Image)));
    assert!(matches!(ok(false, Some("/r.img")), Ok(RootfsFrom::File)));
    assert!(matches!(ok(false, None), Ok(RootfsFrom::Base)));
    let e = ok(true, Some("/r.img")).unwrap_err();
    assert_eq!((e.status, e.message.as_str()), (400, "from_image and rootfs_img are mutually exclusive"));
    let e = create_request("/n", "web", false, &None, true, true).unwrap_err();
    assert_eq!((e.status, e.message.as_str()), (409, "vessel `web` already exists"));
    let e = create_request("/n", "web", false, &Some("/r.img".into()), false, false).unwrap_err();
    assert_eq!((e.status, e.message.as_str()), (400, "no rootfs image at /r.img"));
    assert_eq!(create_request("/n", "a b", false, &None, false, true).unwrap_err().status, 400);
}

#[test]
fn requests_have_limits() {
    assert!(matches!(snap_mode(&None), Ok(SnapMode::Auto)));
    assert!(matches!(snap_mode(&Some("auto".into())), Ok(SnapMode::Auto)));
    assert!(matches!(snap_mode(&Some("memory".into())), Ok(SnapMode::Memory)));
    assert!(matches!(snap_mode(&Some("disk".into())), Ok(SnapMode::DiskOnly)));
    let e = snap_mode(&Some("all".into())).unwrap_err();
    assert_eq!((e.status, e.message.as_str()), (400, "mode must be auto|memory|disk, got all"));
    assert_eq!(branch_count(64).unwrap(), 64);
    let e = branch_count(65).unwrap_err();
    assert_eq!((e.status, e.message.as_str()), (400, "count must be <= 64 per request"));
    assert_eq!(console_start(100, 30), 70);
    assert_eq!(console_start(10, 30), 0);
}

#[test]
fn refusals_are_answered() {
    let t = Some("s3".to_string());
    let said = |m, p: &str, t: &Option<String>, kube| {
        refusal(&route(&req(m, p), t, kube)).map(|e| (e.status, e.message))
    };
    assert_eq!(said(Method::Get, "/v1alpha1/status", &t, true), Some((401, "unauthorized".into())));
    assert_eq!(said(Method::Get, "/healthz", &t, true), None);
    assert_eq!(said(Method::Get, "/nope", &None, true), Some((404, "not found".into())));
    assert_eq!(said(Method::Get, "/v1alpha1/vessels/a/b", &None, true), Some((404, "not found".into())));
    assert_eq!(said(Method::Get, "/v1alpha1/vessels", &None, true), None);
    let no_kube = "no plain-HTTP apiserver (k3s guest?) — use /v1alpha1/kubeconfig";
    assert_eq!(said(Method::Get, "/k8s/api", &None, false), Some((501, no_kube.into())));
}

#[test]
fn failures_are_answered() {
    let said = |f: Failure| {
        let e = f.answer();
        (e.status, e.message)
    };
    let w = || String::from("w");
    assert_eq!(said(Failure::BodyTooLarge), (400, "body too large".into()));
    assert_eq!(said(Failure::BadBody(w())), (400, "w".into()));
    assert_eq!(said(Failure::NoVesselDir), (500, "cannot create vessel dir".into()));
    assert_eq!(said(Failure::Vessel(w())), (409, "w".into()));
    assert_eq!(said(Failure::Engine(w())), (502, "w".into()));
    assert_eq!(said(Failure::Agent(w())), (500, "w".into()));
    assert_eq!(said(Failure::Unexpected(w())), (500, "unexpected: w".into()));
    assert_eq!(said(Failure::Crashed(w())), (500, "w".into()));
    let none = "no kubeconfig — run `nebula kube up` (or POST /v1alpha1/exec) first";
    assert_eq!(said(Failure::NoKubeconfig), (404, none.into()));
    assert_eq!(said(Failure::Socket(w())), (502, "engine socket: w".into()));
    assert_eq!(said(Failure::Handshake(w())), (502, "docker handshake: w".into()));
    assert_eq!(said(Failure::BadPath(w())), (400, "bad path: w".into()));
    assert_eq!(said(Failure::Plane(w())), (502, "docker request: w".into()));
}

use nebula::doc::parse_json;
use nebula::images::{
    container_id, data_disk_script, stage_dir, urlish, BuildAction, BuildEvent, BuildState, ClientAction,
    ClientEvent, ClientState, ImageBuild,
};
use nebula::proto::{AgentResponse, ExecResult};

fn build() -> ImageBuild {
    ImageBuild {
        image: "alpine:3.20".into(),
        name: "web".into(),
        stage: "/h/.nebula-image-build/web".into(),
        rootfs_mb: 4096,
        data_gib: 16,
    }
}

fn answer(status: u16, body: &[u8]) -> BuildEvent {
    BuildEvent::Answer { status, text: format!("{status} Text"), body: body.to_vec() }
}

fn ran(exit_code: i32) -> ExecResult {
    ExecResult { exit_code, stdout: "out".into(), stderr: "err".into(), timed_out: false }
}

#[test]
fn references_are_escaped() {
    assert_eq!(urlish("a b&c%d"), "a%20b%26c%25d");
    assert_eq!(urlish("ghcr.io/a/b:1"), "ghcr.io/a/b:1");
    assert_eq!(stage_dir("/h", "web"), "/h/.nebula-image-build/web");
    assert_eq!(container_id(&parse_json(br#"{"Id":"c1"}"#).unwrap()).as_deref(), Some("c1"));
    assert!(data_disk_script("/s", 2).contains("truncate -s 2048M '/s/data.img'"));
}

#[test]
fn a_root_filesystem_is_built_from_an_image() {
    let b = build();
    let (s, a) = b.begin();
    assert!(matches!(a, BuildAction::Get { ref path } if path.contains("/images/alpine:3.20/json")), "{a:?}");
    let (s, a) = b.step(s, answer(404, b""));
    assert!(matches!(s, BuildState::Pull));
    assert!(matches!(a, BuildAction::Post { ref path } if path.contains("fromImage=alpine:3.20")), "{a:?}");
    let (s, _) = b.step(s, answer(200, b""));
    assert!(matches!(s, BuildState::Recheck));
    let (s, a) = b.step(s, answer(200, b"{}"));
    assert!(matches!(a, BuildAction::CreateContainer));
    let (s, a) = b.step(s, answer(201, br#"{"Id":"c1"}"#));
    assert!(matches!(a, BuildAction::Export { ref path } if path.ends_with("/containers/c1/export")), "{a:?}");
    let (s, a) = b.step(s, BuildEvent::Streamed(Ok(())));
    assert!(matches!(a, BuildAction::Delete { .. }));
    let (s, a) = b.step(s, answer(204, b""));
    match a {
        BuildAction::Run { script } => {
            assert!(script.contains("SIZE_MB=4096; DATA_MB=16384"), "{script}");
            assert!(script.contains("img-build-web"));
        }
        a => panic!("{a:?}"),
    }
    let (s, a) = b.step(s, BuildEvent::Ran { response: AgentResponse::Exec(ran(0)), written: "".into() });
    assert!(matches!(a, BuildAction::Install));
    let (s, a) = b.step(s, BuildEvent::Installed);
    assert!(matches!(s, BuildState::Over));
    assert!(matches!(a, BuildAction::End { result: Ok(()), clean: true }));
}

#[test]
fn a_failed_export_still_removes_the_container() {
    let b = build();
    let (s, a) = b.step(BuildState::Export { cid: "c1".into() }, BuildEvent::Streamed(Err("cut".into())));
    assert!(matches!(a, BuildAction::Delete { .. }));
    let (s, a) = b.step(s, answer(204, b""));
    assert!(matches!(s, BuildState::Over));
    assert!(matches!(a, BuildAction::End { result: Err(e), clean: true } if e == "cut"));
    let (_, a) = b.step(BuildState::Pull, answer(500, b" no such image \n"));
    assert!(matches!(a, BuildAction::End { result: Err(e), .. }
        if e == "image `alpine:3.20` could not be pulled (HTTP 500 Text): no such image"));
    let (_, a) = b.step(BuildState::Recheck, answer(404, b""));
    assert!(matches!(a, BuildAction::End { result: Err(e), .. }
        if e == "image `alpine:3.20` is not available after pull"));
    let (_, a) = b.step(
        BuildState::Build,
        BuildEvent::Ran { response: AgentResponse::Exec(ran(1)), written: "".into() },
    );
    assert!(matches!(a, BuildAction::End { result: Err(e), .. } if e == "image build failed:\nouterr"));
}

#[test]
fn the_client_builds_through_docker() {
    let b = build();
    let (_, a) = b.client_begin(false);
    assert!(matches!(a, ClientAction::End { result: Err(e), clean: false }
        if e == "building from an image needs the engine: nebula up"));
    let ok = |out: &[u8]| ClientEvent::Docker { success: true, stdout: out.to_vec(), stderr: vec![] };
    let bad = |err: &[u8]| ClientEvent::Docker { success: false, stdout: vec![], stderr: err.to_vec() };
    let (s, a) = b.client_begin(true);
    assert!(matches!(a, ClientAction::Docker { args } if args == ["image", "inspect", "alpine:3.20"]));
    let (s, a) = b.client_step(s, bad(b""));
    assert!(matches!(a, ClientAction::Docker { args } if args == ["pull", "-q", "alpine:3.20"]));
    let (s, _) = b.client_step(s, ok(b""));
    let (s, a) = b.client_step(s, ok(b"c1\n"));
    assert!(matches!(a, ClientAction::Docker { args }
        if args == ["export", "-o", "/h/.nebula-image-build/web/export.tar", "c1"]));
    let (s, a) = b.client_step(s, ok(b""));
    assert!(matches!(a, ClientAction::Docker { args } if args == ["rm", "c1"]));
    let (s, a) = b.client_step(s, ok(b""));
    assert!(matches!(a, ClientAction::Run { .. }));
    let (s, a) = b.client_step(s, ClientEvent::Ran(ran(0)));
    assert!(matches!(a, ClientAction::Install));
    let (_, a) = b.client_step(s, ClientEvent::Installed);
    assert!(matches!(a, ClientAction::End { result: Ok(()), clean: true }));
    let (_, a) = b.client_step(ClientState::Pull, bad(b"no\n"));
    assert!(matches!(a, ClientAction::End { result: Err(e), .. }
        if e == "image `alpine:3.20` is not in the engine and could not be pulled: no\n"));
}

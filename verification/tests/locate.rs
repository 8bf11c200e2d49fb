use nebula::locate::{
    ancestors, busybox_url, fetch_busybox, fetch_virtio_mmio_ko, find_repo_vessel_out, find_vessel_init,
    guest_binary, musl_target, nebulad_missing, nebulad_path, not_built, open_ui, parent, InitFrom, OpenUi, UiFound,
};

#[test]
fn directories_above_a_path() {
    assert_eq!(parent("/a/b").as_deref(), Some("/a"));
    assert_eq!(parent("/a/b//").as_deref(), Some("/a"));
    assert_eq!(parent("/a").as_deref(), Some("/"));
    assert_eq!(parent("a").as_deref(), Some(""));
    assert_eq!(parent("/"), None);
    assert_eq!(parent(""), None);
    for path in ["/a/b/c", "/", "a/b", "a", "", "//x/y", "/a//b"] {
        let std: Vec<String> =
            std::path::Path::new(path).ancestors().map(|p| p.display().to_string()).collect();
        let ours = ancestors(path);
        assert_eq!(ours.len(), std.len(), "{path}");
        for (a, b) in ours.iter().zip(&std) {
            assert_eq!(std::path::Path::new(a), std::path::Path::new(b), "{path}");
        }
    }
}

#[test]
fn guest_binaries_stand_in_the_build_tree() {
    assert_eq!(musl_target(true), "aarch64-unknown-linux-musl");
    assert_eq!(musl_target(false), "x86_64-unknown-linux-musl");
    assert_eq!(
        guest_binary("/r/target/debug/nebula", "m", "vessel-init"),
        vec!["/r/target/m/release/vessel-init", "/r/target/m/debug/vessel-init"]
    );
    assert!(guest_binary("/usr/bin/nebula", "m", "x").is_empty());
    assert_eq!(not_built("m", "x"), "x (musl) not built — cargo build -p x --release --target m");
    let builds = guest_binary("/r/target/debug/nebula", "m", "vessel-init");
    let found = |named: Option<&str>, named_there, there: Vec<bool>| {
        match find_vessel_init(&named.map(str::to_string), named_there, &builds, &there, "m") {
            InitFrom::Found(p) => Ok(p),
            InitFrom::Failed(e) => Err(e),
        }
    };
    assert_eq!(found(Some("/i"), true, vec![true, true]).unwrap(), "/i");
    assert_eq!(
        found(Some("/i"), false, vec![true, true]).unwrap_err(),
        "NEBULA_VESSEL_INIT=/i does not exist"
    );
    assert_eq!(found(None, false, vec![false, true]).unwrap(), "/r/target/m/debug/vessel-init");
    assert!(found(None, false, vec![false, false]).unwrap_err().ends_with("--target m"));
}

#[test]
fn the_checkout_is_searched_upwards() {
    assert_eq!(
        find_repo_vessel_out("/r/bin/nebula"),
        vec!["/r/bin/nebula/vessel/out", "/r/bin/vessel/out", "/r/vessel/out", "/vessel/out"]
    );
    assert_eq!(nebulad_path("/r/bin/nebula").as_deref(), Some("/r/bin/nebulad"));
    assert_eq!(nebulad_path("/"), None);
    assert_eq!(nebulad_missing("/x"), "nebulad not found next to nebula (/x)");
}

#[test]
fn the_desktop_app_is_opened() {
    let none = UiFound { checkout: false, bundle: false, release: false, debug: false };
    let dirs: Vec<String> = vec!["/r/bin".into(), "/r".into()];
    assert!(matches!(open_ui(true, &dirs, &vec![none, none], 0), OpenUi::Installed(l) if l == "opened Nebula app"));
    let both = UiFound { checkout: true, bundle: true, release: false, debug: true };
    match open_ui(false, &dirs, &vec![none, both], 0) {
        OpenUi::Bundle { path, line } => {
            assert_eq!(path, "/r/ui/src-tauri/target/release/bundle/macos/nebula-ui.app");
            assert_eq!(line, format!("opened Nebula app ({path})"));
        }
        o => panic!("{o:?}"),
    }
    match open_ui(false, &dirs, &vec![none, both], 1) {
        OpenUi::Run { path, line } => {
            assert_eq!(path, "/r/ui/src-tauri/target/debug/nebula-ui");
            assert_eq!(line, format!("opened Nebula app (dev build: {path})"));
        }
        o => panic!("{o:?}"),
    }
    let loose = UiFound { checkout: false, ..both };
    assert!(matches!(open_ui(false, &dirs, &vec![none, loose], 0), OpenUi::Failed(_)));
}

#[test]
fn downloads_are_judged() {
    assert_eq!(
        busybox_url("busybox-static-1.apk\n").unwrap(),
        "https://dl-cdn.alpinelinux.org/alpine/v3.22/main/aarch64/busybox-static-1.apk"
    );
    assert_eq!(busybox_url(" \n").unwrap_err(), "could not resolve busybox-static apk name");
    assert_eq!(fetch_busybox(true, vec![1]).unwrap(), vec![1]);
    assert!(fetch_busybox(true, vec![]).is_err() && fetch_busybox(false, vec![1]).is_err());
    assert_eq!(fetch_virtio_mmio_ko(true, "u", true, vec![7]).unwrap(), vec![7]);
    assert!(fetch_virtio_mmio_ko(false, "u", true, vec![7]).unwrap_err().contains("download u;"));
    assert!(fetch_virtio_mmio_ko(true, "u", true, vec![]).unwrap_err().contains("not found"));
}

use nebula::error::Error;
use nebula::spec::{BootSpec, ConsoleSpec, DiskSpec, HostFs, NetSpec, ShareSpec, VmSpec};

/// The host that the specs are checked against: one file, one directory.
fn fs() -> HostFs {
    HostFs {
        files: vec!["/bin/sh".to_string()],
        dirs: vec!["/usr".to_string()],
    }
}

fn spec_with(name: &str, cpus: u32, mem: u64) -> VmSpec {
    // A file that exists as a stand-in kernel.
    VmSpec {
        name: name.into(),
        cpus,
        mem_mib: mem,
        boot: BootSpec::Kernel {
            kernel: "/bin/sh".into(),
            initramfs: None,
            cmdline: "console=hvc0".into(),
        },
        disks: vec![],
        shares: vec![],
        net: NetSpec::Off,
        vsock: false,
        console: ConsoleSpec::Off,
        balloon: false,
        rng: true,
        rosetta: false,
        gpu: false,
        control_path: None,
        restore_path: None,
        vsock_ports: vec![],
        backend: None,
        mac: None,
        machine_id: None,
    }
}

#[test]
fn valid_spec_passes() {
    assert!(spec_with("vessel", 2, 512).validate(&fs()).is_ok());
}

#[test]
fn rejects_zero_cpus_and_tiny_memory() {
    assert!(spec_with("a", 0, 512).validate(&fs()).is_err());
    assert!(spec_with("a", 1, 32).validate(&fs()).is_err());
}

#[test]
fn rejects_bad_names_and_missing_kernel() {
    assert!(spec_with("has space", 1, 512).validate(&fs()).is_err());
    assert!(spec_with("", 1, 512).validate(&fs()).is_err());
    let mut s = spec_with("ok", 1, 512);
    s.boot = BootSpec::Kernel {
        kernel: "/nonexistent/kernel".into(),
        initramfs: None,
        cmdline: String::new(),
    };
    assert!(s.validate(&fs()).is_err());
}

#[test]
fn what_a_spec_names_must_exist() {
    let mut s = spec_with("ok", 1, 512);
    s.disks = vec![DiskSpec { path: "/missing.img".into(), read_only: false }];
    assert!(matches!(s.validate(&fs()), Err(Error::FileNotFound(p)) if p == "/missing.img"));
    let mut s = spec_with("ok", 1, 512);
    s.shares = vec![ShareSpec { tag: "home".into(), host_path: "/bin/sh".into(), read_only: false }];
    assert!(s.validate(&fs()).is_err());
    s.shares = vec![ShareSpec { tag: "home".into(), host_path: "/usr".into(), read_only: false }];
    assert!(s.validate(&fs()).is_ok());
}

#[test]
fn the_host_tells_files_from_directories() {
    assert!(fs().is_file("/bin/sh") && !fs().is_file("/usr"));
    assert!(fs().is_dir("/usr") && !fs().is_dir("/bin/sh"));
}

use nebula::config::{host_mem_bytes, proc_kib, Config, ConfigError};

const HOST_MEM: u64 = 64 * 1024 * 1024 * 1024;

#[test]
fn defaults_are_sane() {
    for mem in [2, 16, 64, 512] {
        let eff = Config::default().effective(mem * 1024 * 1024 * 1024, Some(8));
        assert!(eff.mem_mib >= 1024);
        assert!(eff.mem_mib <= 32 * 1024);
        assert!(eff.cpus >= 1);
        assert_eq!(eff.data_disk_gib, 64);
    }
}

#[test]
fn parses_partial_config() {
    let c: Config = Config::load(&Some("max_ram_mib = 96000\ncpus = 8\n".to_string())).unwrap();
    let eff = c.effective(HOST_MEM, Some(4));
    assert_eq!(eff.mem_mib, 96000);
    assert_eq!(eff.cpus, 8);
}

#[test]
fn rejects_unknown_fields() {
    assert!(Config::load(&Some("definitely_not_a_field = 1\n".to_string())).is_err());
    assert!(matches!(
        Config::load(&Some("definitely_not_a_field = 1\n".to_string())),
        Err(ConfigError::Fields(f)) if f == ["definitely_not_a_field"]
    ));
}

#[test]
fn no_file_is_the_default_configuration() {
    let c = Config::load(&None).unwrap();
    assert_eq!(format!("{c:?}"), format!("{:?}", Config::default()));
}

#[test]
fn broken_syntax_is_told_from_a_bad_field() {
    assert!(matches!(Config::load(&Some("max_ram_mib = ".to_string())), Err(ConfigError::Syntax(_))));
    assert!(matches!(
        Config::load(&Some("api_port = 1\ncpus = \"many\"\n".to_string())),
        Err(ConfigError::Fields(f)) if f == ["cpus"]
    ));
    assert!(matches!(
        Config::load(&Some("zone = 1\nkernel = \"k\"\ncpus = -1\n".to_string())),
        Err(ConfigError::Fields(f)) if f == ["cpus", "zone"]
    ));
    assert!(matches!(
        Config::load(&Some("api_port = 70000\n".to_string())),
        Err(ConfigError::Fields(f)) if f == ["api_port"]
    ));
}

#[test]
fn shares_are_read() {
    let text = "allow_public_publish = true\n[[shares]]\npath = \"/a\"\n[[shares]]\npath = \"/b\"\nread_only = true\n";
    let c = Config::load(&Some(text.to_string())).unwrap();
    assert!(c.allow_public_publish);
    assert_eq!(c.shares.len(), 2);
    assert_eq!((c.shares[0].path.as_str(), c.shares[0].read_only), ("/a", false));
    assert_eq!((c.shares[1].path.as_str(), c.shares[1].read_only), ("/b", true));
}

#[test]
fn half_the_memory_and_four_cpus_by_default() {
    let eff = Config::default().effective(HOST_MEM, Some(8));
    assert_eq!(eff.mem_mib, 32 * 1024);
    let eff = Config::default().effective(16 * 1024 * 1024 * 1024, None);
    assert_eq!(eff.mem_mib, 8 * 1024);
    assert_eq!(eff.cpus, 4);
}

#[test]
fn meminfo_rows_are_read_in_kib() {
    let text = "MemFree: 10 kB\nMemTotal:       16384 kB\n";
    assert_eq!(proc_kib(text, "MemTotal:"), Some(16384));
    assert_eq!(host_mem_bytes(Some(text)), 16384 * 1024);
    assert_eq!(host_mem_bytes(None), 8 * 1024 * 1024 * 1024);
}

use nebula::initramfs::{InitramfsBuilder, S_IFCHR, S_IFDIR, S_IFLNK, S_IFREG};

/// Minimal newc parser used to verify round-trip correctness.
fn parse(archive: &[u8]) -> Vec<(String, u32, Vec<u8>)> {
    let mut entries = Vec::new();
    let mut off = 0usize;
    loop {
        assert_eq!(&archive[off..off + 6], b"070701", "bad magic at {off}");
        let field = |i: usize| -> u32 {
            let s = std::str::from_utf8(&archive[off + 6 + i * 8..off + 6 + (i + 1) * 8]).unwrap();
            u32::from_str_radix(s, 16).unwrap()
        };
        let mode = field(1);
        let filesize = field(6) as usize;
        let namesize = field(11) as usize;
        let name_start = off + 110;
        let name = String::from_utf8(archive[name_start..name_start + namesize - 1].to_vec()).unwrap();
        let mut data_start = name_start + namesize;
        data_start += (4 - data_start % 4) % 4;
        let data = archive[data_start..data_start + filesize].to_vec();
        off = data_start + filesize;
        off += (4 - off % 4) % 4;
        if name == "TRAILER!!!" {
            return entries;
        }
        entries.push((name, mode, data));
    }
}

#[test]
fn builds_parseable_archive_with_all_entry_types() {
    let archive = InitramfsBuilder::new()
        .dir("/dev", 0o755)
        .char_dev("/dev/console", 5, 1, 0o600)
        .file("/init", b"#!/bin/sh\n".to_vec(), 0o755)
        .symlink("/linuxrc", "/init")
        .build();

    let entries = parse(&archive);
    assert_eq!(entries.len(), 4);
    assert_eq!(entries[0].0, "dev");
    assert_eq!(entries[0].1 & 0o170000, S_IFDIR);
    assert_eq!(entries[1].0, "dev/console");
    assert_eq!(entries[1].1 & 0o170000, S_IFCHR);
    assert_eq!(entries[2].0, "init");
    assert_eq!(entries[2].2, b"#!/bin/sh\n");
    assert_eq!(entries[3].0, "linuxrc");
    assert_eq!(entries[3].2, b"/init");
    // Whole archive is 4-byte aligned.
    assert_eq!(archive.len() % 4, 0);
}

#[test]
fn deterministic_output() {
    let build = || {
        InitramfsBuilder::new()
            .dir("/dev", 0o755)
            .file("/init", vec![1, 2, 3], 0o755)
            .build()
    };
    assert_eq!(build(), build());
}

#[test]
fn modes_carry_the_permissions() {
    let archive = InitramfsBuilder::new()
        .file("/a", vec![], 0o640)
        .symlink("/b", "/a")
        .build();
    let entries = parse(&archive);
    assert_eq!(entries[0].1, S_IFREG | 0o640);
    assert_eq!(entries[1].1, S_IFLNK | 0o777);
}

#[test]
fn an_empty_archive_is_its_trailer() {
    let archive = InitramfsBuilder::new().build();
    assert!(parse(&archive).is_empty());
    assert_eq!(archive.len(), 124);
    assert_eq!(&archive[..6], b"070701");
}

#[test]
fn members_are_numbered_and_aligned() {
    let out = InitramfsBuilder::new()
        .dir("/dev", 0o755)
        .file("/init", b"hello".to_vec(), 0o755)
        .symlink("/sbin/init", "/init")
        .build();
    let field = |off: usize, i: usize| {
        let at = off + 6 + 8 * i;
        usize::from_str_radix(std::str::from_utf8(&out[at..at + 8]).unwrap(), 16).unwrap()
    };
    let up = |n: usize| (n + 3) / 4 * 4;
    let mut off = 0;
    for want in [1, 2, 3, 0] {
        assert_eq!(off % 4, 0);
        assert_eq!(&out[off..off + 6], b"070701");
        assert_eq!(field(off, 0), want);
        assert_eq!((field(off, 2), field(off, 3), field(off, 5)), (0, 0, 0));
        let name_end = off + 110 + field(off, 11);
        let data = up(name_end);
        let end = data + field(off, 6);
        assert!(out[name_end - 1..data].iter().all(|b| *b == 0));
        off = up(end);
        assert!(out[end..off].iter().all(|b| *b == 0));
    }
    assert_eq!(off, out.len());
}

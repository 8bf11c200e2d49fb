//! `config.toml`: everything optional, defaults tuned for "just works".

use crate::doc::{get, Doc, DocView};
use crate::text::{lines, owned, parse_u64, same, strip_all, strip_prefix, trim};
use crate::toml_doc::parse_toml;
use vstd::prelude::*;

verus! {

/// A host directory to share into the engine.
#[derive(Debug, Clone)]
pub struct ShareEntry {
    pub path: String,
    pub read_only: bool,
}

#[derive(Debug, Clone)]
pub struct Config {
    /// Maximum guest RAM in MiB; a ceiling, not a reservation. Default: half
    /// of the host's, at most 32 GiB.
    pub max_ram_mib: Option<u64>,
    /// vCPUs. Default: all host cores.
    pub cpus: Option<u32>,
    /// Data disk size in GiB (sparse). Default 64.
    pub data_disk_gib: Option<u64>,
    /// Override the kernel's path.
    pub kernel: Option<String>,
    /// Override the root image's path.
    pub rootfs: Option<String>,
    /// REST API port (default 7440; 0 disables the API).
    pub api_port: Option<u16>,
    /// REST API bind address (default 127.0.0.1).
    pub api_host: Option<String>,
    /// Local DNS zone for container names (default "nebula.local").
    pub dns_zone: Option<String>,
    /// Host UDP port for the guest DNS relay (default 42053).
    pub dns_port: Option<u16>,
    /// Host port forwarding to the k3s API (default 6443).
    pub k8s_port: Option<u16>,
    /// What to do when a port is taken: "fail" (default) or "auto".
    pub port_conflict: Option<String>,
    /// Bind published ports to the address that the container asked for.
    pub allow_public_publish: bool,
    pub shares: Vec<ShareEntry>,
}

impl Default for Config {
    fn default() -> (c: Config)
        ensures
            c.max_ram_mib is None,
            c.cpus is None,
            c.data_disk_gib is None,
            c.kernel is None,
            c.rootfs is None,
            c.api_port is None,
            c.api_host is None,
            c.dns_zone is None,
            c.dns_port is None,
            c.k8s_port is None,
            c.port_conflict is None,
            !c.allow_public_publish,
            c.shares@.len() == 0,
    {
        Config {
            max_ram_mib: None,
            cpus: None,
            data_disk_gib: None,
            kernel: None,
            rootfs: None,
            api_port: None,
            api_host: None,
            dns_zone: None,
            dns_port: None,
            k8s_port: None,
            port_conflict: None,
            allow_public_publish: false,
            shares: Vec::new(),
        }
    }
}

/// What the engine is given.
#[derive(Debug, Clone, Copy, PartialEq, Eq, Structural)]
pub struct Effective {
    pub mem_mib: u64,
    pub cpus: u32,
    pub data_disk_gib: u64,
}

/// The guest's memory by default: half of the host's, at most 32 GiB.
pub open spec fn default_mem_mib(host_mem_bytes: int) -> int {
    let half = host_mem_bytes / 1048576 / 2;
    if half < 32768 {
        half
    } else {
        32768
    }
}

/// The sizes that a configuration comes to on a host.
pub open spec fn sized(cfg: Config, host_mem_bytes: u64, cores: Option<u32>, e: Effective) -> bool {
    &&& e.mem_mib == (match cfg.max_ram_mib {
        Some(n) => n as int,
        None => default_mem_mib(host_mem_bytes as int),
    })
    &&& e.cpus == (match cfg.cpus {
        Some(n) => n,
        None => match cores {
            Some(n) => n,
            None => 4,
        },
    })
    &&& e.data_disk_gib == (match cfg.data_disk_gib {
        Some(n) => n,
        None => 64,
    })
}

impl Config {
    /// The effective sizes on a host with that much memory and so many cores.
    pub fn effective(&self, host_mem_bytes: u64, cores: Option<u32>) -> (e: Effective)
        ensures
            sized(*self, host_mem_bytes, cores, e),
    {
        let half: u64 = host_mem_bytes / 1048576 / 2;
        Effective {
            mem_mib: match self.max_ram_mib {
                Some(n) => n,
                None => if half < 32768 {
                    half
                } else {
                    32768
                },
            },
            cpus: match self.cpus {
                Some(n) => n,
                None => match cores {
                    Some(n) => n,
                    None => 4,
                },
            },
            data_disk_gib: match self.data_disk_gib {
                Some(n) => n,
                None => 64,
            },
        }
    }
}

/// The number of kibibytes that a line `<key> <n> kB` gives.
pub open spec fn kib_of_line(line: Seq<char>, key: Seq<char>) -> Option<nat> {
    match crate::text::after_prefix(line, key) {
        Some(v) => crate::text::parse_dec(
            crate::text::without_suffix(crate::text::trimmed(v), " kB"@),
            u64::MAX as nat,
        ),
        None => None,
    }
}

/// The first line of a `/proc` file that gives the key's number.
pub open spec fn first_kib(ls: Seq<Seq<char>>, key: Seq<char>) -> Option<nat>
    decreases ls.len(),
{
    if ls.len() == 0 {
        None
    } else {
        match kib_of_line(ls[0], key) {
            Some(n) => Some(n),
            None => first_kib(ls.skip(1), key),
        }
    }
}

/// Read a number of kibibytes from a `/proc` file.
pub fn proc_kib(text: &str, key: &str) -> (r: Option<u64>)
    ensures
        match r {
            Some(n) => first_kib(crate::text::lines_of(text@), key@) == Some(n as nat),
            None => first_kib(crate::text::lines_of(text@), key@) is None,
        },
{
    let ls: Vec<String> = lines(text);
    let ghost lv = crate::text::views(ls@);
    proof {
        reveal_strlit(" kB");
    }
    let mut i: usize = 0;
    assert(lv.skip(0) =~= lv);
    while i < ls.len()
        invariant
            i <= ls@.len(),
            lv == crate::text::views(ls@),
            lv == crate::text::lines_of(text@),
            " kB"@.len() > 0,
            first_kib(lv.skip(i as int), key@) == first_kib(lv, key@),
        decreases ls@.len() - i,
    {
        proof {
            let cur = lv.skip(i as int);
            assert(cur[0] == ls@[i as int]@);
            assert(cur.skip(1) =~= lv.skip(i as int + 1));
        }
        match strip_prefix(ls[i].as_str(), key) {
            Some(v) => {
                let t: String = trim(v.as_str());
                let digits: String = strip_all(t.as_str(), " kB");
                match parse_u64(digits.as_str()) {
                    Some(n) => {
                        return Some(n);
                    },
                    None => {},
                }
            },
            None => {},
        }
        i = i + 1;
    }
    None
}

/// The host's memory in bytes, from `/proc/meminfo` where that was read; eight
/// gibibytes where it says nothing, or nothing that a number of bytes can hold.
pub fn host_mem_bytes(meminfo: Option<&str>) -> (n: u64)
    ensures
        n == (match meminfo {
            Some(t) => match first_kib(crate::text::lines_of(t@), "MemTotal:"@) {
                Some(k) => if k * 1024 <= u64::MAX {
                    k * 1024
                } else {
                    8589934592
                },
                None => 8589934592,
            },
            None => 8589934592,
        }),
{
    match meminfo {
        Some(t) => match proc_kib(t, "MemTotal:") {
            Some(k) => if k <= u64::MAX / 1024 {
                k * 1024
            } else {
                8589934592
            },
            None => 8589934592,
        },
        None => 8589934592,
    }
}

/// On a host of at least two gibibytes the guest's default lies between one
/// gibibyte and 32.
pub proof fn defaults_are_sane(host_mem_bytes: int)
    requires
        host_mem_bytes >= 2147483648,
    ensures
        1024 <= default_mem_mib(host_mem_bytes) <= 32768,
{
}

// The file

/// What a field holds.
pub enum FieldKind {
    /// A number up to this one.
    Number(nat),
    Text,
    Flag,
    Shares,
    Unknown,
}

/// The fields of the file.
pub open spec fn kind_of(key: Seq<char>) -> FieldKind {
    if key == "max_ram_mib"@ || key == "data_disk_gib"@ {
        FieldKind::Number(u64::MAX as nat)
    } else if key == "cpus"@ {
        FieldKind::Number(u32::MAX as nat)
    } else if key == "api_port"@ || key == "dns_port"@ || key == "k8s_port"@ {
        FieldKind::Number(u16::MAX as nat)
    } else if key == "kernel"@ || key == "rootfs"@ || key == "api_host"@ || key == "dns_zone"@
        || key == "port_conflict"@ {
        FieldKind::Text
    } else if key == "allow_public_publish"@ {
        FieldKind::Flag
    } else if key == "shares"@ {
        FieldKind::Shares
    } else {
        FieldKind::Unknown
    }
}

/// Whether a value is a share: a path, and whether it is read-only.
pub open spec fn share_ok(d: DocView) -> bool {
    d is Table && crate::doc::field(d, "path"@) is Str && (crate::doc::field(d, "read_only"@) is Bool
        || crate::doc::field(d, "read_only"@) is Null)
}

/// Whether a value suits a field.
pub open spec fn value_ok(kind: FieldKind, v: DocView) -> bool {
    match kind {
        FieldKind::Number(max) => v matches DocView::Num(s) && crate::text::parse_dec(s, max) is Some,
        FieldKind::Text => v is Str,
        FieldKind::Flag => v is Bool,
        FieldKind::Shares => v matches DocView::List(l) && forall|i: int|
            0 <= i < l.len() ==> share_ok(#[trigger] l[i]),
        FieldKind::Unknown => false,
    }
}

/// Whether a member of the file may stand there.
pub open spec fn member_ok(m: (DocView, DocView)) -> bool {
    m.0 matches DocView::Str(k) && value_ok(kind_of(k), m.1)
}

/// Whether a document is a configuration: no field is unknown, and every value
/// suits its field.
pub open spec fn is_config(d: DocView) -> bool {
    d matches DocView::Table(m) && forall|i: int| 0 <= i < m.len() ==> member_ok(#[trigger] m[i])
}

pub open spec fn number_at(d: DocView, key: Seq<char>) -> Option<nat> {
    match crate::doc::field(d, key) {
        DocView::Num(s) => crate::text::parse_dec(s, u64::MAX as nat),
        _ => None,
    }
}

pub open spec fn text_at(d: DocView, key: Seq<char>) -> Option<Seq<char>> {
    match crate::doc::field(d, key) {
        DocView::Str(s) => Some(s),
        _ => None,
    }
}

pub open spec fn share_views(v: Seq<ShareEntry>) -> Seq<(Seq<char>, bool)> {
    v.map_values(|s: ShareEntry| (s.path@, s.read_only))
}

/// The shares of a document.
pub open spec fn shares_at(d: DocView) -> Seq<(Seq<char>, bool)> {
    match crate::doc::field(d, "shares"@) {
        DocView::List(l) => l.map_values(
            |s: DocView|
                (
                    match crate::doc::field(s, "path"@) {
                        DocView::Str(p) => p,
                        _ => Seq::empty(),
                    },
                    crate::doc::field(s, "read_only"@) == DocView::Bool(true),
                ),
        ),
        _ => Seq::empty(),
    }
}

/// A configuration says what its document says.
pub open spec fn says(c: Config, d: DocView) -> bool {
    &&& same_number(c.max_ram_mib, number_at(d, "max_ram_mib"@))
    &&& same_number(c.data_disk_gib, number_at(d, "data_disk_gib"@))
    &&& (match (c.cpus, number_at(d, "cpus"@)) {
        (Some(a), Some(b)) => a == b,
        (None, None) => true,
        _ => false,
    })
    &&& same_port(c.api_port, number_at(d, "api_port"@))
    &&& same_port(c.dns_port, number_at(d, "dns_port"@))
    &&& same_port(c.k8s_port, number_at(d, "k8s_port"@))
    &&& crate::text::opt_view(c.kernel) == text_at(d, "kernel"@)
    &&& crate::text::opt_view(c.rootfs) == text_at(d, "rootfs"@)
    &&& crate::text::opt_view(c.api_host) == text_at(d, "api_host"@)
    &&& crate::text::opt_view(c.dns_zone) == text_at(d, "dns_zone"@)
    &&& crate::text::opt_view(c.port_conflict) == text_at(d, "port_conflict"@)
    &&& c.allow_public_publish == (crate::doc::field(d, "allow_public_publish"@) == DocView::Bool(
        true,
    ))
    &&& share_views(c.shares@) == shares_at(d)
}

pub open spec fn same_number(a: Option<u64>, b: Option<nat>) -> bool {
    match (a, b) {
        (Some(x), Some(y)) => x == y,
        (None, None) => true,
        _ => false,
    }
}

pub open spec fn same_port(a: Option<u16>, b: Option<nat>) -> bool {
    match (a, b) {
        (Some(x), Some(y)) => x == y,
        (None, None) => true,
        _ => false,
    }
}

fn read_share(d: &Doc) -> (r: Option<ShareEntry>)
    ensures
        match r {
            Some(s) => share_ok(d@) && DocView::Str(s.path@) == crate::doc::field(d@, "path"@)
                && s.read_only == (crate::doc::field(d@, "read_only"@) == DocView::Bool(true)),
            None => !share_ok(d@),
        },
{
    proof {
        crate::doc::lemma_tree(*d);
    }
    match d {
        Doc::Table(_) => {},
        _ => {
            return None;
        },
    }
    let path: String = match get(d, "path") {
        Some(Doc::Str(p)) => owned(p.as_str()),
        Some(other) => {
            proof {
                crate::doc::lemma_tree(*other);
            }
            return None;
        },
        None => {
            return None;
        },
    };
    let read_only: bool = match get(d, "read_only") {
        Some(Doc::Bool(b)) => *b,
        Some(Doc::Null) => false,
        Some(other) => {
            proof {
                crate::doc::lemma_tree(*other);
            }
            return None;
        },
        None => false,
    };
    Some(ShareEntry { path, read_only })
}

fn read_shares(d: &Doc) -> (r: Option<Vec<ShareEntry>>)
    ensures
        match r {
            Some(v) => value_ok(FieldKind::Shares, d@) && v@.len() == d@->List_0.len() && forall|
                i: int,
            |
                0 <= i < v@.len() ==> DocView::Str((#[trigger] v@[i]).path@) == crate::doc::field(
                    d@->List_0[i],
                    "path"@,
                ) && v@[i].read_only == (crate::doc::field(d@->List_0[i], "read_only"@)
                    == DocView::Bool(true)),
            None => !value_ok(FieldKind::Shares, d@),
        },
{
    proof {
        crate::doc::lemma_tree(*d);
    }
    match d {
        Doc::List(items) => {
            let ghost l = crate::doc::doc_views(items@);
            let mut v: Vec<ShareEntry> = Vec::new();
            let mut i: usize = 0;
            while i < items.len()
                invariant
                    i <= items@.len(),
                    v@.len() == i,
                    l == crate::doc::doc_views(items@),
                    d@ == DocView::List(l),
                    forall|j: int| 0 <= j < i ==> share_ok(#[trigger] l[j]),
                    forall|j: int|
                        0 <= j < i ==> DocView::Str((#[trigger] v@[j]).path@) == crate::doc::field(
                            l[j],
                            "path"@,
                        ) && v@[j].read_only == (crate::doc::field(l[j], "read_only"@)
                            == DocView::Bool(true)),
                decreases items@.len() - i,
            {
                assert(l[i as int] == items@[i as int]@);
                match read_share(&items[i]) {
                    Some(s) => {
                        v.push(s);
                    },
                    None => {
                        assert(!share_ok(l[i as int]));
                        return None;
                    },
                }
                i = i + 1;
            }
            Some(v)
        },
        _ => None,
    }
}

fn number_fits(d: &Doc, max: u64) -> (r: bool)
    ensures
        r == value_ok(FieldKind::Number(max as nat), d@),
{
    proof {
        crate::doc::lemma_tree(*d);
    }
    match d {
        Doc::Num(s) => {
            let v: Vec<char> = crate::text::to_chars(s.as_str());
            let n: usize = v.len();
            assert(v@.subrange(0, n as int) =~= s@);
            match crate::text::parse_dec_range(&v, 0, n, max) {
                Some(_) => true,
                None => false,
            }
        },
        _ => false,
    }
}

fn is_member(k: &Doc, v: &Doc) -> (r: bool)
    ensures
        r == member_ok((k@, v@)),
{
    proof {
        crate::doc::lemma_tree(*k);
        crate::doc::lemma_tree(*v);
    }
    match k {
        Doc::Str(key) => {
            let key: &str = key.as_str();
            if same(key, "max_ram_mib") || same(key, "data_disk_gib") {
                number_fits(v, 0xffff_ffff_ffff_ffff)
            } else if same(key, "cpus") {
                number_fits(v, 0xffff_ffff)
            } else if same(key, "api_port") || same(key, "dns_port") || same(key, "k8s_port") {
                number_fits(v, 0xffff)
            } else if same(key, "kernel") || same(key, "rootfs") || same(key, "api_host") || same(
                key,
                "dns_zone",
            ) || same(key, "port_conflict") {
                match v {
                    Doc::Str(_) => true,
                    _ => false,
                }
            } else if same(key, "allow_public_publish") {
                match v {
                    Doc::Bool(_) => true,
                    _ => false,
                }
            } else if same(key, "shares") {
                match read_shares(v) {
                    Some(_) => true,
                    None => false,
                }
            } else {
                false
            }
        },
        _ => false,
    }
}

fn read_number(d: &Doc, key: &str) -> (r: Option<u64>)
    ensures
        same_number(r, number_at(d@, key@)),
{
    match get(d, key) {
        Some(x) => {
            proof {
                crate::doc::lemma_tree(*x);
            }
            match x {
                Doc::Num(s) => parse_u64(s.as_str()),
                _ => None,
            }
        },
        None => None,
    }
}

fn read_text(d: &Doc, key: &str) -> (r: Option<String>)
    ensures
        crate::text::opt_view(r) == text_at(d@, key@),
{
    match get(d, key) {
        Some(x) => {
            proof {
                crate::doc::lemma_tree(*x);
            }
            match x {
                Doc::Str(s) => Some(owned(s.as_str())),
                _ => None,
            }
        },
        None => None,
    }
}

/// A number of a field fits into it.
proof fn lemma_field_fits(d: DocView, key: Seq<char>, max: nat)
    requires
        is_config(d),
        kind_of(key) == FieldKind::Number(max),
        max <= u64::MAX,
    ensures
        number_at(d, key) matches Some(n) ==> n <= max,
{
    let m = d->Table_0;
    crate::doc::lemma_position(m, DocView::Str(key));
    match crate::doc::position(m, DocView::Str(key)) {
        Some(i) => {
            assert(member_ok(m[i]));
        },
        None => {},
    }
}

/// The shares of a configuration are shares.
proof fn lemma_shares(d: DocView)
    requires
        is_config(d),
    ensures
        crate::doc::field(d, "shares"@) == DocView::Null || value_ok(
            FieldKind::Shares,
            crate::doc::field(d, "shares"@),
        ),
{
    let m = d->Table_0;
    let k = "shares"@;
    crate::doc::lemma_position(m, DocView::Str(k));
    match crate::doc::position(m, DocView::Str(k)) {
        Some(i) => {
            assert(member_ok(m[i]));
            lemma_kind_of_shares();
        },
        None => {},
    }
}

proof fn lemma_kind_of_shares()
    ensures
        kind_of("shares"@) == FieldKind::Shares,
{
    reveal_strlit("shares");
    reveal_strlit("max_ram_mib");
    reveal_strlit("data_disk_gib");
    reveal_strlit("cpus");
    reveal_strlit("api_port");
    reveal_strlit("dns_port");
    reveal_strlit("k8s_port");
    reveal_strlit("kernel");
    reveal_strlit("rootfs");
    reveal_strlit("api_host");
    reveal_strlit("dns_zone");
    reveal_strlit("port_conflict");
    reveal_strlit("allow_public_publish");
    assert("shares"@[0] == 's');
    assert("kernel"@[0] == 'k');
    assert("rootfs"@[0] == 'r');
}

/// Why there is no configuration.
#[derive(Debug)]
pub enum ConfigError {
    /// The text is not TOML; what is wrong with it.
    Syntax(String),
    /// These fields are unknown, or their values do not suit them.
    Fields(Vec<String>),
}

/// The name of a member.
pub open spec fn member_name(m: (DocView, DocView)) -> Seq<char> {
    match m.0 {
        DocView::Str(name) => name,
        _ => Seq::empty(),
    }
}

/// The names of the members that are no fields with fitting values.
pub open spec fn wrong_members(m: Seq<(DocView, DocView)>) -> Seq<Seq<char>>
    decreases m.len(),
{
    if m.len() == 0 {
        Seq::empty()
    } else if member_ok(m.last()) {
        wrong_members(m.drop_last())
    } else {
        wrong_members(m.drop_last()).push(member_name(m.last()))
    }
}

/// The fields that keep a document from being a configuration.
pub open spec fn wrong_fields(d: DocView) -> Seq<Seq<char>> {
    match d {
        DocView::Table(m) => wrong_members(m),
        _ => Seq::empty(),
    }
}

fn find_wrong(m: &Vec<(Doc, Doc)>) -> (r: Vec<String>)
    ensures
        crate::text::views(r@) == wrong_members(crate::doc::member_views(m@)),
        r@.len() == 0 <==> forall|i: int|
            0 <= i < m@.len() ==> member_ok(#[trigger] crate::doc::member_views(m@)[i]),
{
    let ghost all = crate::doc::member_views(m@);
    let mut r: Vec<String> = Vec::new();
    let mut i: usize = 0;
    assert(all.take(0) =~= Seq::empty());
    assert(crate::text::views(r@) =~= Seq::empty());
    while i < m.len()
        invariant
            i <= m@.len(),
            all == crate::doc::member_views(m@),
            crate::text::views(r@) == wrong_members(all.take(i as int)),
            r@.len() == 0 <==> forall|j: int| 0 <= j < i ==> member_ok(#[trigger] all[j]),
        decreases m@.len() - i,
    {
        let ghost now = crate::text::views(r@);
        proof {
            let longer = all.take(i as int + 1);
            assert(all[i as int] == (m@[i as int].0@, m@[i as int].1@));
            assert(longer.last() == all[i as int]);
            assert(longer.drop_last() =~= all.take(i as int));
            crate::doc::lemma_tree(m@[i as int].0);
        }
        if !is_member(&m[i].0, &m[i].1) {
            assert(!member_ok(all[i as int]));
            let name: String = match &m[i].0 {
                Doc::Str(name) => owned(name.as_str()),
                _ => nameless(),
            };
            let ghost nv = name@;
            r.push(name);
            assert(crate::text::views(r@) =~= now.push(nv));
        }
        i = i + 1;
    }
    assert(all.take(m@.len() as int) =~= all);
    r
}

fn nameless() -> (s: String)
    ensures
        s@ == Seq::<char>::empty(),
{
    proof {
        reveal_strlit("");
        assert(""@ =~= Seq::empty());
    }
    owned("")
}

impl Config {
    /// The configuration that a document is.
    pub fn of(d: &Doc) -> (r: Result<Config, Vec<String>>)
        ensures
            match r {
                Ok(c) => is_config(d@) && says(c, d@),
                Err(names) => !is_config(d@) && crate::text::views(names@) == wrong_fields(d@),
            },
    {
        proof {
            crate::doc::lemma_tree(*d);
        }
        match d {
            Doc::Table(m) => {
                let wrong: Vec<String> = find_wrong(m);
                assert(crate::doc::member_views(m@).len() == m@.len());
                if wrong.len() > 0 {
                    proof {
                        let all = d@->Table_0;
                        assert(all == crate::doc::member_views(m@));
                        assert(!is_config(d@));
                    }
                    return Err(wrong);
                }
            },
            _ => {
                let none: Vec<String> = Vec::new();
                assert(crate::text::views(none@) =~= Seq::empty());
                return Err(none);
            },
        }
        proof {
            lemma_kinds();
            lemma_field_fits(d@, "cpus"@, u32::MAX as nat);
            lemma_field_fits(d@, "api_port"@, u16::MAX as nat);
            lemma_field_fits(d@, "dns_port"@, u16::MAX as nat);
            lemma_field_fits(d@, "k8s_port"@, u16::MAX as nat);
            lemma_shares(d@);
        }
        let cpus: Option<u32> = match read_number(d, "cpus") {
            Some(n) => Some(n as u32),
            None => None,
        };
        let api_port: Option<u16> = match read_number(d, "api_port") {
            Some(n) => Some(n as u16),
            None => None,
        };
        let dns_port: Option<u16> = match read_number(d, "dns_port") {
            Some(n) => Some(n as u16),
            None => None,
        };
        let k8s_port: Option<u16> = match read_number(d, "k8s_port") {
            Some(n) => Some(n as u16),
            None => None,
        };
        let public: bool = match get(d, "allow_public_publish") {
            Some(x) => {
                proof {
                    crate::doc::lemma_tree(*x);
                }
                match x {
                    Doc::Bool(b) => *b,
                    _ => false,
                }
            },
            None => false,
        };
        let shares: Vec<ShareEntry> = match get(d, "shares") {
            Some(x) => match read_shares(x) {
                Some(v) => v,
                None => Vec::new(),
            },
            None => Vec::new(),
        };
        assert(share_views(shares@) =~= shares_at(d@));
        Ok(
            Config {
                max_ram_mib: read_number(d, "max_ram_mib"),
                cpus,
                data_disk_gib: read_number(d, "data_disk_gib"),
                kernel: read_text(d, "kernel"),
                rootfs: read_text(d, "rootfs"),
                api_port,
                api_host: read_text(d, "api_host"),
                dns_zone: read_text(d, "dns_zone"),
                dns_port,
                k8s_port,
                port_conflict: read_text(d, "port_conflict"),
                allow_public_publish: public,
                shares,
            },
        )
    }

    /// Read the configuration; the default one where there is no file.
    pub fn load(text: &Option<String>) -> (r: Result<Config, ConfigError>)
        ensures
            match *text {
                None => r is Ok && says(r->Ok_0, DocView::Table(Seq::empty())),
                Some(t) => match (crate::toml_doc::toml_text(t@), r) {
                    (Ok(d), Ok(c)) => is_config(d) && says(c, d),
                    (Ok(d), Err(ConfigError::Fields(names))) => !is_config(d) && crate::text::views(
                        names@,
                    ) == wrong_fields(d),
                    (Err(e), Err(ConfigError::Syntax(m))) => m@ == e,
                    _ => false,
                },
            },
    {
        match text {
            None => {
                let c: Config = Config::default();
                assert(share_views(c.shares@) =~= Seq::empty());
                Ok(c)
            },
            Some(t) => match parse_toml(t.as_str()) {
                Ok(d) => match Config::of(&d) {
                    Ok(c) => Ok(c),
                    Err(names) => Err(ConfigError::Fields(names)),
                },
                Err(e) => Err(ConfigError::Syntax(e)),
            },
        }
    }
}

proof fn lemma_kinds()
    ensures
        kind_of("cpus"@) == FieldKind::Number(u32::MAX as nat),
        kind_of("api_port"@) == FieldKind::Number(u16::MAX as nat),
        kind_of("dns_port"@) == FieldKind::Number(u16::MAX as nat),
        kind_of("k8s_port"@) == FieldKind::Number(u16::MAX as nat),
{
    reveal_strlit("max_ram_mib");
    reveal_strlit("data_disk_gib");
    reveal_strlit("cpus");
    reveal_strlit("api_port");
    reveal_strlit("dns_port");
    reveal_strlit("k8s_port");
    assert("cpus"@.len() == 4);
    assert("api_port"@.len() == 8);
    assert("dns_port"@.len() == 8);
    assert("k8s_port"@.len() == 8);
    assert("max_ram_mib"@.len() == 11);
    assert("data_disk_gib"@.len() == 13);
}

/// Which fields a configuration has, and what each of them holds.
pub proof fn what_each_field_holds()
    ensures
        kind_of("max_ram_mib"@) == FieldKind::Number(u64::MAX as nat),
        kind_of("data_disk_gib"@) == FieldKind::Number(u64::MAX as nat),
        kind_of("cpus"@) == FieldKind::Number(u32::MAX as nat),
        kind_of("api_port"@) == FieldKind::Number(65535),
        kind_of("dns_port"@) == FieldKind::Number(65535),
        kind_of("k8s_port"@) == FieldKind::Number(65535),
        kind_of("kernel"@) == FieldKind::Text,
        kind_of("rootfs"@) == FieldKind::Text,
        kind_of("api_host"@) == FieldKind::Text,
        kind_of("dns_zone"@) == FieldKind::Text,
        kind_of("port_conflict"@) == FieldKind::Text,
        kind_of("allow_public_publish"@) == FieldKind::Flag,
        kind_of("shares"@) == FieldKind::Shares,
{
    reveal_strlit("max_ram_mib");
    reveal_strlit("data_disk_gib");
    reveal_strlit("cpus");
    reveal_strlit("api_port");
    reveal_strlit("dns_port");
    reveal_strlit("k8s_port");
    reveal_strlit("kernel");
    reveal_strlit("rootfs");
    reveal_strlit("api_host");
    reveal_strlit("dns_zone");
    reveal_strlit("port_conflict");
    reveal_strlit("allow_public_publish");
    reveal_strlit("shares");
    assert("max_ram_mib"@.len() == 11 && "data_disk_gib"@.len() == 13 && "cpus"@.len() == 4);
    assert("api_port"@.len() == 8 && "dns_port"@.len() == 8 && "k8s_port"@.len() == 8);
    assert("kernel"@.len() == 6 && "rootfs"@.len() == 6 && "api_host"@.len() == 8
        && "dns_zone"@.len() == 8 && "port_conflict"@.len() == 13);
    assert("allow_public_publish"@.len() == 20 && "shares"@.len() == 6);
    assert("api_port"@[4] == 'p' && "dns_port"@[4] == 'p' && "k8s_port"@[4] == 'p'
        && "api_host"@[4] == 'h' && "dns_zone"@[4] == 'z');
    assert("data_disk_gib"@[0] == 'd' && "port_conflict"@[0] == 'p');
    assert("shares"@[0] == 's' && "kernel"@[0] == 'k' && "rootfs"@[0] == 'r');
}

/// A line of a `/proc` file gives the number between its key and the unit.
pub proof fn kibibytes_are_read(key: Seq<char>, n: u64)
    ensures
        kib_of_line(key + seq![' '] + crate::text::decimal(n as nat) + " kB"@, key) == Some(
            n as nat,
        ),
        kib_of_line(key + crate::text::decimal(n as nat) + " kB"@, key) == Some(n as nat),
{
    reveal_strlit(" kB");
    let d = crate::text::decimal(n as nat);
    let v = d + " kB"@;
    crate::text::decimal_reads_back(n as nat);
    assert(crate::text::parse_dec(d, u64::MAX as nat) == Some(n as nat));
    assert(crate::text::is_digit(d[0]));
    assert(crate::text::is_digit(d.last()));
    assert(key + d + " kB"@ =~= key + v);
    assert(key + seq![' '] + d + " kB"@ =~= key + (seq![' '] + v));
    crate::text::what_is_behind_a_prefix(key + v, key, v);
    crate::text::what_is_behind_a_prefix(key + (seq![' '] + v), key, seq![' '] + v);
    crate::text::blanks_are_trimmed(v, ' ');
    assert(v[0] == d[0]);
    assert(v.last() == 'B');
    assert(crate::text::trimmed(v) == v);
    reveal_with_fuel(crate::text::without_suffix, 2);
    assert(v.subrange(v.len() - 3, v.len() as int) =~= " kB"@);
    assert(v.take(v.len() - 3) =~= d);
    if crate::text::has_suffix(d, " kB"@) {
        assert(d.subrange(d.len() - 3, d.len() as int)[2] == d.last());
    }
}

/// A number in a file is the first that stands behind its key.
pub proof fn the_first_such_number_is_read(ls: Seq<Seq<char>>, key: Seq<char>, k: int)
    requires
        0 <= k < ls.len(),
        kib_of_line(ls[k], key) is Some,
        forall|j: int| 0 <= j < k ==> kib_of_line(#[trigger] ls[j], key) is None,
    ensures
        first_kib(ls, key) == kib_of_line(ls[k], key),
    decreases ls.len(),
{
    if k > 0 {
        let rest = ls.skip(1);
        assert(kib_of_line(ls[0], key) is None);
        assert forall|j: int| 0 <= j < k - 1 implies kib_of_line(#[trigger] rest[j], key) is None by {
            assert(rest[j] == ls[j + 1]);
        }
        the_first_such_number_is_read(rest, key, k - 1);
        assert(rest[k - 1] == ls[k]);
    }
}

/// By default a guest gets half of the host's memory, and never more than
/// 32 GiB.
pub proof fn a_guest_gets_half(host_mem_bytes: int)
    requires
        host_mem_bytes >= 0,
    ensures
        default_mem_mib(host_mem_bytes) <= 32768,
        2097152 * default_mem_mib(host_mem_bytes) <= host_mem_bytes,
        default_mem_mib(host_mem_bytes) < 32768 ==> host_mem_bytes < 2097152 * (
        default_mem_mib(host_mem_bytes) + 1),
{
    let q = host_mem_bytes / 1048576;
    let half = q / 2;
    assert(1048576 * q <= host_mem_bytes < 1048576 * q + 1048576);
    assert(2 * half <= q < 2 * half + 2);
    assert(default_mem_mib(host_mem_bytes) <= half);
}

/// What is configured is what is used; else the host's cores, half its memory
/// within bounds, and 64 GiB of disk.
pub proof fn what_sizes_are_used(cfg: Config, host_mem_bytes: u64, cores: Option<u32>, e: Effective)
    requires
        sized(cfg, host_mem_bytes, cores, e),
    ensures
        cfg.max_ram_mib matches Some(n) ==> e.mem_mib == n,
        cfg.max_ram_mib is None ==> e.mem_mib == default_mem_mib(host_mem_bytes as int),
        cfg.cpus matches Some(n) ==> e.cpus == n,
        cfg.cpus is None ==> (cores matches Some(n) ==> e.cpus == n),
        cfg.cpus is None && cores is None ==> e.cpus == 4,
        cfg.data_disk_gib matches Some(n) ==> e.data_disk_gib == n,
        cfg.data_disk_gib is None ==> e.data_disk_gib == 64,
{
}

} // verus!

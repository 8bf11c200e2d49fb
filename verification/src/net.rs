//! Host networking: which published container ports are forwarded, and where
//! they listen; and the names of the `*.nebula.local` zone.

use crate::dns::{build_error, build_response, IpAddr, Question};
use crate::doc::{as_list, as_text, get, number_field, parse_json, text_field, Doc, DocView};
use crate::text::{cat2, ends_with, list_has, owned, same, strip_all, to_ascii_lowercase};
use vstd::prelude::*;

verus! {

broadcast use vstd::array::axiom_array_ext_equal;

// --- addresses ------------------------------------------------------------------

/// Whether an address is the host itself.
pub open spec fn loopback(ip: IpAddr) -> bool {
    match ip {
        IpAddr::V4(a) => a@[0] == 127,
        IpAddr::V6(a) => a@[15] == 1 && forall|i: int| 0 <= i < 15 ==> #[trigger] a@[i] == 0,
    }
}

/// Whether an address is the wildcard.
pub open spec fn unspecified(ip: IpAddr) -> bool {
    match ip {
        IpAddr::V4(a) => forall|i: int| 0 <= i < 4 ==> #[trigger] a@[i] == 0,
        IpAddr::V6(a) => forall|i: int| 0 <= i < 16 ==> #[trigger] a@[i] == 0,
    }
}

fn zeros(a: &[u8], n: usize) -> (r: bool)
    requires
        n <= a@.len(),
    ensures
        r == forall|i: int| 0 <= i < n ==> #[trigger] a@[i] == 0,
{
    let mut i: usize = 0;
    while i < n
        invariant
            i <= n <= a@.len(),
            forall|j: int| 0 <= j < i ==> #[trigger] a@[j] == 0,
        decreases n - i,
    {
        if a[i] != 0 {
            assert(a@[i as int] != 0);
            return false;
        }
        i = i + 1;
    }
    true
}

pub fn is_loopback(ip: &IpAddr) -> (r: bool)
    ensures
        r == loopback(*ip),
{
    match ip {
        IpAddr::V4(a) => a[0] == 127,
        IpAddr::V6(a) => a[15] == 1 && zeros(a.as_slice(), 15),
    }
}

pub fn is_unspecified(ip: &IpAddr) -> (r: bool)
    ensures
        r == unspecified(*ip),
{
    match ip {
        IpAddr::V4(a) => zeros(a.as_slice(), 4),
        IpAddr::V6(a) => zeros(a.as_slice(), 16),
    }
}

/// 127.0.0.1
pub open spec fn localhost_ip() -> IpAddr {
    IpAddr::V4([127u8, 0u8, 0u8, 1u8])
}

pub fn localhost() -> (ip: IpAddr)
    ensures
        ip == localhost_ip(),
{
    IpAddr::V4([127u8, 0u8, 0u8, 1u8])
}

/// 0.0.0.0
pub open spec fn wildcard_ip() -> IpAddr {
    IpAddr::V4([0u8, 0u8, 0u8, 0u8])
}

fn same_octets(a: &[u8], b: &[u8]) -> (r: bool)
    ensures
        r == (a@ == b@),
{
    if a.len() != b.len() {
        return false;
    }
    let mut i: usize = 0;
    while i < a.len()
        invariant
            i <= a@.len(),
            a@.len() == b@.len(),
            forall|j: int| 0 <= j < i ==> a@[j] == b@[j],
        decreases a@.len() - i,
    {
        if a[i] != b[i] {
            return false;
        }
        i = i + 1;
    }
    assert(a@ =~= b@);
    true
}

pub fn same_ip(a: &IpAddr, b: &IpAddr) -> (r: bool)
    ensures
        r == (*a == *b),
{
    match (a, b) {
        (IpAddr::V4(x), IpAddr::V4(y)) => {
            let r: bool = same_octets(x.as_slice(), y.as_slice());
            assert(x@ == y@ ==> *x =~= *y);
            r
        },
        (IpAddr::V6(x), IpAddr::V6(y)) => {
            let r: bool = same_octets(x.as_slice(), y.as_slice());
            assert(x@ == y@ ==> *x =~= *y);
            r
        },
        _ => false,
    }
}

/// The address on the host that a published port listens on. Loopback stays
/// loopback; anything wider is honoured only where the instance has opted in,
/// and is otherwise clamped to 127.0.0.1.
pub open spec fn bind_of(host_ip: IpAddr, allow_public: bool) -> IpAddr {
    if !loopback(host_ip) && allow_public {
        host_ip
    } else {
        localhost_ip()
    }
}

pub fn effective_bind(host_ip: IpAddr, allow_public_publish: bool) -> (ip: IpAddr)
    ensures
        ip == bind_of(host_ip, allow_public_publish),
{
    if is_loopback(&host_ip) {
        // ::1 becomes 127.0.0.1 too: the forward dials IPv4 upstream anyway.
        localhost()
    } else if allow_public_publish {
        host_ip
    } else {
        localhost()
    }
}

/// How broad a binding is: the wildcard, one address, the host itself.
pub open spec fn breadth(ip: IpAddr) -> int {
    if unspecified(ip) {
        2
    } else if loopback(ip) {
        0
    } else {
        1
    }
}

/// Whether `a` is the broader binding of the two; of two equally broad ones
/// the IPv4 one counts as broader.
pub open spec fn is_wider(a: IpAddr, b: IpAddr) -> bool {
    breadth(a) > breadth(b) || (breadth(a) == breadth(b) && a is V4 && b is V6)
}

fn rank(ip: &IpAddr) -> (n: u8)
    ensures
        n == breadth(*ip),
{
    if is_unspecified(ip) {
        2
    } else if is_loopback(ip) {
        0
    } else {
        1
    }
}

/// Is `a` a broader binding than `b`? A port published twice (the v4 and v6
/// mappings of one `-p`, or by two containers) gets the widest of them.
pub fn wider(a: &IpAddr, b: &IpAddr) -> (r: bool)
    ensures
        r == is_wider(*a, *b),
{
    let x: u8 = rank(a);
    let y: u8 = rank(b);
    x > y || (x == y && matches!(a, IpAddr::V4(_)) && matches!(b, IpAddr::V6(_)))
}

// --- what the engine publishes ----------------------------------------------------

/// A published TCP port as the engine lists it: the port, and the text of the
/// address, empty where there is none.
#[derive(Debug)]
pub struct ListedPort {
    pub port: u16,
    pub ip: String,
}

/// A container as the engine lists it.
#[derive(Debug)]
pub struct Listed {
    pub names: Vec<String>,
    pub ports: Vec<ListedPort>,
}

pub struct ListedView {
    pub names: Seq<Seq<char>>,
    pub ports: Seq<(u16, Seq<char>)>,
}

pub open spec fn port_pairs(v: Seq<ListedPort>) -> Seq<(u16, Seq<char>)> {
    v.map_values(|p: ListedPort| (p.port, p.ip@))
}

impl View for Listed {
    type V = ListedView;

    open spec fn view(&self) -> ListedView {
        ListedView { names: crate::text::views(self.names@), ports: port_pairs(self.ports@) }
    }
}

pub open spec fn listed_views(v: Seq<Listed>) -> Seq<ListedView> {
    v.map_values(|l: Listed| l@)
}

/// The names that a list gives: those items that are text, without their
/// leading slashes, in lower case.
pub open spec fn names_in(items: Seq<DocView>) -> Seq<Seq<char>>
    decreases items.len(),
{
    if items.len() == 0 {
        Seq::empty()
    } else {
        let before = names_in(items.drop_last());
        match crate::doc::text_of(items.last()) {
            Some(s) => before.push(
                crate::text::ascii_lower(crate::initramfs::without_slashes(s)),
            ),
            None => before,
        }
    }
}

/// The port that an item publishes: TCP, with a public port.
pub open spec fn port_in(d: DocView) -> Option<(u16, Seq<char>)> {
    if crate::doc::text_of(crate::doc::field(d, "Type"@)) == Some("tcp"@) {
        match crate::doc::number_of(crate::doc::field(d, "PublicPort"@)) {
            Some(n) => Some(
                (
                    (n % 65536) as u16,
                    match crate::doc::text_of(crate::doc::field(d, "IP"@)) {
                        Some(ip) => ip,
                        None => Seq::empty(),
                    },
                ),
            ),
            None => None,
        }
    } else {
        None
    }
}

pub open spec fn ports_in(items: Seq<DocView>) -> Seq<(u16, Seq<char>)>
    decreases items.len(),
{
    if items.len() == 0 {
        Seq::empty()
    } else {
        let before = ports_in(items.drop_last());
        match port_in(items.last()) {
            Some(p) => before.push(p),
            None => before,
        }
    }
}

pub open spec fn listed_of(c: DocView) -> ListedView {
    ListedView {
        names: names_in(crate::doc::items_of(crate::doc::field(c, "Names"@))),
        ports: ports_in(crate::doc::items_of(crate::doc::field(c, "Ports"@))),
    }
}

/// The containers of a listing.
pub open spec fn listing(d: DocView) -> Seq<ListedView> {
    crate::doc::items_of(d).map_values(|c: DocView| listed_of(c))
}

fn read_names(items: &Vec<Doc>) -> (r: Vec<String>)
    ensures
        crate::text::views(r@) == names_in(crate::doc::doc_views(items@)),
{
    let ghost all = crate::doc::doc_views(items@);
    let mut r: Vec<String> = Vec::new();
    let mut i: usize = 0;
    assert(all.take(0) =~= Seq::empty());
    assert(crate::text::views(r@) =~= Seq::empty());
    while i < items.len()
        invariant
            i <= items@.len(),
            all == crate::doc::doc_views(items@),
            crate::text::views(r@) == names_in(all.take(i as int)),
        decreases items@.len() - i,
    {
        let ghost longer = all.take(i as int + 1);
        let ghost now = crate::text::views(r@);
        proof {
            assert(longer.drop_last() =~= all.take(i as int));
            assert(longer.last() == items@[i as int]@);
        }
        match as_text(&items[i]) {
            Some(s) => {
                let bare: String = crate::initramfs::norm(s.as_str());
                let name: String = to_ascii_lowercase(bare.as_str());
                let ghost nv = name@;
                r.push(name);
                assert(crate::text::views(r@) =~= now.push(nv));
            },
            None => {},
        }
        i = i + 1;
    }
    assert(all.take(items@.len() as int) =~= all);
    r
}

fn read_port(d: &Doc) -> (r: Option<ListedPort>)
    ensures
        match r {
            Some(p) => port_in(d@) == Some((p.port, p.ip@)),
            None => port_in(d@) is None,
        },
{
    let is_tcp: bool = match text_field(d, "Type") {
        Some(t) => same(t.as_str(), "tcp"),
        None => false,
    };
    if !is_tcp {
        return None;
    }
    match number_field(d, "PublicPort") {
        Some(n) => {
            let ip: String = match text_field(d, "IP") {
                Some(ip) => ip,
                None => String::new(),
            };
            Some(ListedPort { port: (n % 65536) as u16, ip })
        },
        None => None,
    }
}

fn read_ports(items: &Vec<Doc>) -> (r: Vec<ListedPort>)
    ensures
        port_pairs(r@) == ports_in(crate::doc::doc_views(items@)),
{
    let ghost all = crate::doc::doc_views(items@);
    let mut r: Vec<ListedPort> = Vec::new();
    let mut i: usize = 0;
    assert(all.take(0) =~= Seq::empty());
    assert(port_pairs(r@) =~= Seq::empty());
    while i < items.len()
        invariant
            i <= items@.len(),
            all == crate::doc::doc_views(items@),
            port_pairs(r@) == ports_in(all.take(i as int)),
        decreases items@.len() - i,
    {
        let ghost longer = all.take(i as int + 1);
        let ghost now = port_pairs(r@);
        proof {
            assert(longer.drop_last() =~= all.take(i as int));
            assert(longer.last() == items@[i as int]@);
        }
        match read_port(&items[i]) {
            Some(p) => {
                let ghost pv = (p.port, p.ip@);
                r.push(p);
                assert(port_pairs(r@) =~= now.push(pv));
            },
            None => {},
        }
        i = i + 1;
    }
    assert(all.take(items@.len() as int) =~= all);
    r
}

fn read_container(c: &Doc) -> (r: Listed)
    ensures
        r@ == listed_of(c@),
{
    let names: Vec<String> = match get(c, "Names") {
        Some(d) => match as_list(d) {
            Some(l) => read_names(l),
            None => Vec::new(),
        },
        None => Vec::new(),
    };
    let ports: Vec<ListedPort> = match get(c, "Ports") {
        Some(d) => match as_list(d) {
            Some(l) => read_ports(l),
            None => Vec::new(),
        },
        None => Vec::new(),
    };
    let r = Listed { names, ports };
    assert(r@.names =~= listed_of(c@).names);
    assert(r@.ports =~= listed_of(c@).ports);
    r
}

/// The containers that a listing holds; none where it is no list.
pub fn containers_of(d: &Doc) -> (r: Vec<Listed>)
    ensures
        listed_views(r@) == listing(d@),
{
    let mut r: Vec<Listed> = Vec::new();
    match as_list(d) {
        None => {
            assert(listed_views(r@) =~= listing(d@));
            r
        },
        Some(l) => {
            let ghost all = crate::doc::doc_views(l@);
            let mut i: usize = 0;
            while i < l.len()
                invariant
                    i <= l@.len(),
                    all == crate::doc::doc_views(l@),
                    r@.len() == i,
                    forall|j: int| 0 <= j < i ==> (#[trigger] r@[j])@ == listed_of(all[j]),
                decreases l@.len() - i,
            {
                let c: Listed = read_container(&l[i]);
                assert(all[i as int] == l@[i as int]@);
                r.push(c);
                i = i + 1;
            }
            assert(listed_views(r@) =~= listing(d@));
            r
        },
    }
}

/// Read the body of the engine's answer to a container listing; an error where
/// it is not JSON.
pub fn list_containers(body: &[u8]) -> (r: Result<Vec<Listed>, String>)
    ensures
        match (r, crate::doc::json_text(body@)) {
            (Ok(v), Ok(d)) => listed_views(v@) == listing(d),
            (Err(e), Err(t)) => e@ == t,
            _ => false,
        },
{
    match parse_json(body) {
        Ok(d) => Ok(containers_of(&d)),
        Err(e) => Err(e),
    }
}

/// One mapping of a published port, its address read. An absent or
/// unparseable address is the wildcard, which is what the engine reports for a
/// bare `-p 8080:80`.
#[derive(Debug, Clone, Copy)]
pub struct Mapping {
    pub port: u16,
    pub host_ip: IpAddr,
}

/// The mapping of a listed port, from what its address parses to.
pub fn mapping(port: u16, parsed: Option<IpAddr>) -> (m: Mapping)
    ensures
        m.port == port,
        m.host_ip == (match parsed {
            Some(ip) => ip,
            None => wildcard_ip(),
        }),
{
    let host_ip: IpAddr = match parsed {
        Some(ip) => ip,
        None => IpAddr::V4([0u8, 0u8, 0u8, 0u8]),
    };
    Mapping { port, host_ip }
}

/// One published TCP port, and the two independent things the engine's host
/// address tells about it.
#[derive(Debug, Clone, Copy)]
pub struct PublishedPort {
    pub port: u16,
    /// The engine bound it to the guest's own loopback: it is invisible on the
    /// guest's NAT address and must be reached through the vsock proxy.
    pub guest_loopback: bool,
    /// The address to listen on, on the host.
    pub host_ip: IpAddr,
}

/// A container: its names, and the ports it publishes.
#[derive(Debug)]
pub struct ContainerInfo {
    pub names: Vec<String>,
    pub tcp_ports: Vec<PublishedPort>,
}

/// Where a list of published ports has a port.
pub open spec fn port_at(ports: Seq<PublishedPort>, port: u16) -> Option<int>
    decreases ports.len(),
{
    if ports.len() == 0 {
        None
    } else if ports.last().port == port {
        Some(ports.len() - 1)
    } else {
        port_at(ports.drop_last(), port)
    }
}

/// A further mapping of a port: it is loopback-only when every mapping is
/// loopback, and takes the widest host address of them.
pub open spec fn with_mapping(ports: Seq<PublishedPort>, m: Mapping) -> Seq<PublishedPort> {
    match port_at(ports, m.port) {
        Some(i) => ports.update(
            i,
            PublishedPort {
                port: m.port,
                guest_loopback: ports[i].guest_loopback && loopback(m.host_ip),
                host_ip: if is_wider(m.host_ip, ports[i].host_ip) {
                    m.host_ip
                } else {
                    ports[i].host_ip
                },
            },
        ),
        None => ports.push(
            PublishedPort {
                port: m.port,
                guest_loopback: loopback(m.host_ip),
                host_ip: m.host_ip,
            },
        ),
    }
}

/// The ports that a row of mappings publishes, each once.
pub open spec fn published(maps: Seq<Mapping>) -> Seq<PublishedPort>
    decreases maps.len(),
{
    if maps.len() == 0 {
        Seq::empty()
    } else {
        with_mapping(published(maps.drop_last()), maps.last())
    }
}

fn find_port(ports: &Vec<PublishedPort>, port: u16) -> (r: Option<usize>)
    ensures
        match r {
            Some(i) => port_at(ports@, port) == Some(i as int) && i < ports@.len(),
            None => port_at(ports@, port) is None,
        },
{
    let mut i: usize = ports.len();
    assert(ports@.take(i as int) =~= ports@);
    while i > 0
        invariant
            i <= ports@.len(),
            port_at(ports@.take(i as int), port) == port_at(ports@, port),
        decreases i,
    {
        proof {
            let cur = ports@.take(i as int);
            assert(cur.last() == ports@[i - 1]);
            assert(cur.drop_last() =~= ports@.take(i - 1));
        }
        if ports[i - 1].port == port {
            return Some(i - 1);
        }
        i = i - 1;
    }
    None
}

/// Merge the mappings of one container.
pub fn merge_ports(maps: &Vec<Mapping>) -> (r: Vec<PublishedPort>)
    ensures
        r@ == published(maps@),
{
    let mut r: Vec<PublishedPort> = Vec::new();
    let mut i: usize = 0;
    assert(maps@.take(0) =~= Seq::empty());
    while i < maps.len()
        invariant
            i <= maps@.len(),
            r@ == published(maps@.take(i as int)),
        decreases maps@.len() - i,
    {
        let m: Mapping = maps[i];
        proof {
            let longer = maps@.take(i as int + 1);
            assert(longer.drop_last() =~= maps@.take(i as int));
            assert(longer.last() == m);
        }
        let local: bool = is_loopback(&m.host_ip);
        match find_port(&r, m.port) {
            Some(k) => {
                let cur: PublishedPort = r[k];
                let ip: IpAddr = if wider(&m.host_ip, &cur.host_ip) {
                    m.host_ip
                } else {
                    cur.host_ip
                };
                r.set(
                    k,
                    PublishedPort {
                        port: m.port,
                        guest_loopback: cur.guest_loopback && local,
                        host_ip: ip,
                    },
                );
            },
            None => {
                r.push(PublishedPort { port: m.port, guest_loopback: local, host_ip: m.host_ip });
            },
        }
        i = i + 1;
    }
    assert(maps@.take(maps@.len() as int) =~= maps@);
    r
}

// --- port forwards ------------------------------------------------------------------

/// A running forward. It is replaced when any of its parts changes: the
/// guest's address moves on every boot, and a container republished from
/// 127.0.0.1 to 0.0.0.0 must not keep its loopback listener.
#[derive(Debug, Clone, Copy)]
pub struct Forward {
    pub port: u16,
    /// The guest's address.
    pub guest: [u8; 4],
    /// Whether the guest publishes it on its own loopback only.
    pub guest_loopback: bool,
    /// Where it listens on the host.
    pub bind: IpAddr,
}

/// A forward to stop. Its listener is woken by a connection to the address
/// that it is bound to.
#[derive(Debug, Clone, Copy)]
pub struct Stopped {
    pub port: u16,
    pub nudge: IpAddr,
}

/// A forward to start: to the guest's address where there is one to dial,
/// through the vsock proxy otherwise.
#[derive(Debug, Clone, Copy)]
pub struct Started {
    pub forward: Forward,
    pub dial: Option<[u8; 4]>,
}

/// The ports of a row of containers, in order.
pub open spec fn all_ports(cs: Seq<ContainerInfo>) -> Seq<PublishedPort>
    decreases cs.len(),
{
    if cs.len() == 0 {
        Seq::empty()
    } else {
        all_ports(cs.drop_last()) + cs.last().tcp_ports@
    }
}

/// The names of a row of containers.
pub open spec fn all_names(cs: Seq<ContainerInfo>) -> Seq<Seq<char>>
    decreases cs.len(),
{
    if cs.len() == 0 {
        Seq::empty()
    } else {
        all_names(cs.drop_last()) + crate::text::views(cs.last().names@)
    }
}

pub open spec fn with_port(ports: Seq<u16>, p: u16) -> Seq<u16> {
    if ports.contains(p) {
        ports
    } else {
        ports.push(p)
    }
}

/// The ports that are published, each once.
pub open spec fn distinct_ports(ports: Seq<PublishedPort>) -> Seq<u16>
    decreases ports.len(),
{
    if ports.len() == 0 {
        Seq::empty()
    } else {
        with_port(distinct_ports(ports.drop_last()), ports.last().port)
    }
}

/// Whether a port is published.
pub open spec fn is_published(ports: Seq<PublishedPort>, p: u16) -> bool {
    exists|i: int| 0 <= i < ports.len() && (#[trigger] ports[i]).port == p
}

/// Whether a port is published, every mapping of it on the guest's loopback.
pub open spec fn on_guest_loopback(ports: Seq<PublishedPort>, p: u16) -> bool {
    is_published(ports, p) && forall|i: int|
        0 <= i < ports.len() && (#[trigger] ports[i]).port == p ==> ports[i].guest_loopback
}

/// Where a port listens on the host: the widest of what its mappings ask for.
pub open spec fn host_bind(ports: Seq<PublishedPort>, p: u16, allow_public: bool) -> Option<IpAddr>
    decreases ports.len(),
{
    if ports.len() == 0 {
        None
    } else {
        let before = host_bind(ports.drop_last(), p, allow_public);
        if ports.last().port != p {
            before
        } else {
            let want = bind_of(ports.last().host_ip, allow_public);
            match before {
                Some(cur) => Some(
                    if is_wider(want, cur) {
                        want
                    } else {
                        cur
                    },
                ),
                None => Some(want),
            }
        }
    }
}

/// The guest's address; 0.0.0.0 where it is not known.
pub open spec fn guest_or_none(guest: Option<[u8; 4]>) -> [u8; 4] {
    match guest {
        Some(ip) => ip,
        None => [0u8, 0u8, 0u8, 0u8],
    }
}

/// The forward that a port should have.
pub open spec fn wanted(
    ports: Seq<PublishedPort>,
    p: u16,
    guest: Option<[u8; 4]>,
    allow_public: bool,
) -> Forward {
    Forward {
        port: p,
        guest: guest_or_none(guest),
        guest_loopback: on_guest_loopback(ports, p),
        bind: match host_bind(ports, p, allow_public) {
            Some(ip) => ip,
            None => localhost_ip(),
        },
    }
}

/// Whether a forward may stay as it is.
pub open spec fn stays(
    f: Forward,
    ports: Seq<PublishedPort>,
    all: Seq<u16>,
    guest: Option<[u8; 4]>,
    allow_public: bool,
) -> bool {
    all.contains(f.port) && f == wanted(ports, f.port, guest, allow_public)
}

pub open spec fn kept(
    fs: Seq<Forward>,
    ports: Seq<PublishedPort>,
    all: Seq<u16>,
    guest: Option<[u8; 4]>,
    allow_public: bool,
) -> Seq<Forward>
    decreases fs.len(),
{
    if fs.len() == 0 {
        Seq::empty()
    } else {
        let before = kept(fs.drop_last(), ports, all, guest, allow_public);
        if stays(fs.last(), ports, all, guest, allow_public) {
            before.push(fs.last())
        } else {
            before
        }
    }
}

/// The address that wakes a listener: its own, or loopback for the wildcard.
pub open spec fn nudge_of(bind: IpAddr) -> IpAddr {
    if unspecified(bind) {
        localhost_ip()
    } else {
        bind
    }
}

pub open spec fn dropped(
    fs: Seq<Forward>,
    ports: Seq<PublishedPort>,
    all: Seq<u16>,
    guest: Option<[u8; 4]>,
    allow_public: bool,
) -> Seq<Stopped>
    decreases fs.len(),
{
    if fs.len() == 0 {
        Seq::empty()
    } else {
        let before = dropped(fs.drop_last(), ports, all, guest, allow_public);
        if stays(fs.last(), ports, all, guest, allow_public) {
            before
        } else {
            before.push(Stopped { port: fs.last().port, nudge: nudge_of(fs.last().bind) })
        }
    }
}

pub open spec fn has_forward(fs: Seq<Forward>, p: u16) -> bool {
    exists|i: int| 0 <= i < fs.len() && (#[trigger] fs[i]).port == p
}

/// What a forward dials. macOS dials the guest's address, which the host can
/// reach; a loopback-scoped publish and the other hosts go through the vsock
/// proxy.
pub open spec fn dialled(f: Forward, guest: Option<[u8; 4]>, macos: bool) -> Option<[u8; 4]> {
    if macos && !f.guest_loopback {
        guest
    } else {
        None
    }
}

/// The forwards to start: one for each port that has none.
pub open spec fn missing(
    all: Seq<u16>,
    fs: Seq<Forward>,
    ports: Seq<PublishedPort>,
    guest: Option<[u8; 4]>,
    allow_public: bool,
    macos: bool,
) -> Seq<Started>
    decreases all.len(),
{
    if all.len() == 0 {
        Seq::empty()
    } else {
        let before = missing(all.drop_last(), fs, ports, guest, allow_public, macos);
        if has_forward(fs, all.last()) {
            before
        } else {
            let f = wanted(ports, all.last(), guest, allow_public);
            before.push(Started { forward: f, dial: dialled(f, guest, macos) })
        }
    }
}

fn collect_ports(cs: &Vec<ContainerInfo>) -> (r: Vec<PublishedPort>)
    ensures
        r@ == all_ports(cs@),
{
    let mut r: Vec<PublishedPort> = Vec::new();
    let mut i: usize = 0;
    assert(cs@.take(0) =~= Seq::empty());
    while i < cs.len()
        invariant
            i <= cs@.len(),
            r@ == all_ports(cs@.take(i as int)),
        decreases cs@.len() - i,
    {
        proof {
            let longer = cs@.take(i as int + 1);
            assert(longer.drop_last() =~= cs@.take(i as int));
            assert(longer.last() == cs@[i as int]);
        }
        let ghost before = r@;
        let mut k: usize = 0;
        assert(before + cs@[i as int].tcp_ports@.take(0) =~= before);
        while k < cs[i].tcp_ports.len()
            invariant
                i < cs@.len(),
                k <= cs@[i as int].tcp_ports@.len(),
                r@ == before + cs@[i as int].tcp_ports@.take(k as int),
            decreases cs@[i as int].tcp_ports@.len() - k,
        {
            let p: PublishedPort = cs[i].tcp_ports[k];
            r.push(p);
            assert(r@ =~= before + cs@[i as int].tcp_ports@.take(k as int + 1));
            k = k + 1;
        }
        assert(cs@[i as int].tcp_ports@.take(k as int) =~= cs@[i as int].tcp_ports@);
        i = i + 1;
    }
    assert(cs@.take(cs@.len() as int) =~= cs@);
    r
}

fn collect_names(cs: &Vec<ContainerInfo>) -> (r: Vec<String>)
    ensures
        crate::text::views(r@) == all_names(cs@),
{
    let mut r: Vec<String> = Vec::new();
    let mut i: usize = 0;
    assert(cs@.take(0) =~= Seq::empty());
    assert(crate::text::views(r@) =~= Seq::empty());
    while i < cs.len()
        invariant
            i <= cs@.len(),
            crate::text::views(r@) == all_names(cs@.take(i as int)),
        decreases cs@.len() - i,
    {
        let ghost nv = crate::text::views(cs@[i as int].names@);
        proof {
            let longer = cs@.take(i as int + 1);
            assert(longer.drop_last() =~= cs@.take(i as int));
            assert(longer.last() == cs@[i as int]);
        }
        let ghost before = crate::text::views(r@);
        let mut k: usize = 0;
        assert(before + nv.take(0) =~= before);
        while k < cs[i].names.len()
            invariant
                i < cs@.len(),
                nv == crate::text::views(cs@[i as int].names@),
                k <= nv.len(),
                crate::text::views(r@) == before + nv.take(k as int),
            decreases nv.len() - k,
        {
            let ghost now = crate::text::views(r@);
            r.push(owned(cs[i].names[k].as_str()));
            proof {
                assert(nv[k as int] == cs@[i as int].names@[k as int]@);
                assert(crate::text::views(r@) =~= now.push(nv[k as int]));
                assert(now.push(nv[k as int]) =~= before + nv.take(k as int + 1));
            }
            k = k + 1;
        }
        assert(nv.take(k as int) =~= nv);
        i = i + 1;
    }
    assert(cs@.take(cs@.len() as int) =~= cs@);
    r
}

fn has_u16(v: &Vec<u16>, p: u16) -> (r: bool)
    ensures
        r == v@.contains(p),
{
    let mut i: usize = 0;
    while i < v.len()
        invariant
            i <= v@.len(),
            forall|j: int| 0 <= j < i ==> v@[j] != p,
        decreases v@.len() - i,
    {
        if v[i] == p {
            assert(v@[i as int] == p);
            return true;
        }
        i = i + 1;
    }
    false
}

fn wanted_ports(ports: &Vec<PublishedPort>, k8s_port: u16) -> (r: Vec<u16>)
    ensures
        r@ == with_port(distinct_ports(ports@), k8s_port),
{
    let mut r: Vec<u16> = Vec::new();
    let mut i: usize = 0;
    assert(ports@.take(0) =~= Seq::empty());
    while i < ports.len()
        invariant
            i <= ports@.len(),
            r@ == distinct_ports(ports@.take(i as int)),
        decreases ports@.len() - i,
    {
        proof {
            let longer = ports@.take(i as int + 1);
            assert(longer.drop_last() =~= ports@.take(i as int));
            assert(longer.last() == ports@[i as int]);
        }
        if !has_u16(&r, ports[i].port) {
            r.push(ports[i].port);
        }
        i = i + 1;
    }
    assert(ports@.take(ports@.len() as int) =~= ports@);
    if !has_u16(&r, k8s_port) {
        r.push(k8s_port);
    }
    r
}

fn want(ports: &Vec<PublishedPort>, p: u16, guest: Option<[u8; 4]>, allow_public: bool) -> (f:
    Forward)
    ensures
        f == wanted(ports@, p, guest, allow_public),
{
    let mut bind: Option<IpAddr> = None;
    let mut seen: bool = false;
    let mut local: bool = true;
    let mut i: usize = 0;
    assert(ports@.take(0) =~= Seq::empty());
    while i < ports.len()
        invariant
            i <= ports@.len(),
            bind == host_bind(ports@.take(i as int), p, allow_public),
            seen == is_published(ports@.take(i as int), p),
            local == (forall|k: int|
                0 <= k < i && (#[trigger] ports@.take(i as int)[k]).port == p
                    ==> ports@.take(i as int)[k].guest_loopback),
        decreases ports@.len() - i,
    {
        let ghost shorter = ports@.take(i as int);
        let ghost longer = ports@.take(i as int + 1);
        let q: PublishedPort = ports[i];
        proof {
            assert(longer.drop_last() =~= shorter);
            assert(longer.last() == q);
            assert forall|k: int| 0 <= k < i implies shorter[k] == longer[k] by {};
            if is_published(shorter, p) {
                let k = choose|k: int| 0 <= k < shorter.len() && (#[trigger] shorter[k]).port == p;
                assert(longer[k].port == p);
            }
            if is_published(longer, p) && q.port != p {
                let k = choose|k: int| 0 <= k < longer.len() && (#[trigger] longer[k]).port == p;
                assert(shorter[k].port == p);
            }
            assert(longer[i as int] == q);
        }
        if q.port == p {
            let w: IpAddr = effective_bind(q.host_ip, allow_public);
            bind = match bind {
                Some(cur) => if wider(&w, &cur) {
                    Some(w)
                } else {
                    Some(cur)
                },
                None => Some(w),
            };
            seen = true;
            if !q.guest_loopback {
                local = false;
            }
        }
        proof {
            if local {
                assert forall|k: int| 0 <= k < i + 1 && (#[trigger] longer[k]).port == p implies longer[k].guest_loopback by {
                    if k < i {
                        assert(shorter[k] == longer[k]);
                    }
                }
            } else {
                if !(q.port == p && !q.guest_loopback) {
                    let k = choose|k: int|
                        0 <= k < i && (#[trigger] shorter[k]).port == p
                            && !shorter[k].guest_loopback;
                    assert(longer[k] == shorter[k]);
                }
            }
        }
        i = i + 1;
    }
    assert(ports@.take(ports@.len() as int) =~= ports@);
    Forward {
        port: p,
        guest: match guest {
            Some(ip) => ip,
            None => [0u8, 0u8, 0u8, 0u8],
        },
        guest_loopback: seen && local,
        bind: match bind {
            Some(ip) => ip,
            None => localhost(),
        },
    }
}

fn same_forward(a: &Forward, b: &Forward) -> (r: bool)
    ensures
        r == (*a == *b),
{
    let same_guest: bool = same_octets(a.guest.as_slice(), b.guest.as_slice());
    assert(a.guest@ == b.guest@ ==> a.guest =~= b.guest);
    a.port == b.port && same_guest && a.guest_loopback == b.guest_loopback && same_ip(
        &a.bind,
        &b.bind,
    )
}

fn forwards_port(fs: &Vec<Forward>, p: u16) -> (r: bool)
    ensures
        r == has_forward(fs@, p),
{
    let mut i: usize = 0;
    while i < fs.len()
        invariant
            i <= fs@.len(),
            forall|j: int| 0 <= j < i ==> (#[trigger] fs@[j]).port != p,
        decreases fs@.len() - i,
    {
        if fs[i].port == p {
            assert(fs@[i as int].port == p);
            return true;
        }
        i = i + 1;
    }
    false
}

fn sort_out(
    fs: &Vec<Forward>,
    ports: &Vec<PublishedPort>,
    all: &Vec<u16>,
    guest: Option<[u8; 4]>,
    allow_public: bool,
) -> (r: (Vec<Forward>, Vec<Stopped>))
    ensures
        r.0@ == kept(fs@, ports@, all@, guest, allow_public),
        r.1@ == dropped(fs@, ports@, all@, guest, allow_public),
{
    let mut keep: Vec<Forward> = Vec::new();
    let mut gone: Vec<Stopped> = Vec::new();
    let mut i: usize = 0;
    assert(fs@.take(0) =~= Seq::empty());
    while i < fs.len()
        invariant
            i <= fs@.len(),
            keep@ == kept(fs@.take(i as int), ports@, all@, guest, allow_public),
            gone@ == dropped(fs@.take(i as int), ports@, all@, guest, allow_public),
        decreases fs@.len() - i,
    {
        let f: Forward = fs[i];
        proof {
            let longer = fs@.take(i as int + 1);
            assert(longer.drop_last() =~= fs@.take(i as int));
            assert(longer.last() == f);
        }
        let w: Forward = want(ports, f.port, guest, allow_public);
        if has_u16(all, f.port) && same_forward(&f, &w) {
            keep.push(f);
        } else {
            let nudge: IpAddr = if is_unspecified(&f.bind) {
                localhost()
            } else {
                f.bind
            };
            gone.push(Stopped { port: f.port, nudge });
        }
        i = i + 1;
    }
    assert(fs@.take(fs@.len() as int) =~= fs@);
    (keep, gone)
}

fn find_missing(
    all: &Vec<u16>,
    fs: &Vec<Forward>,
    ports: &Vec<PublishedPort>,
    guest: Option<[u8; 4]>,
    allow_public: bool,
    macos: bool,
) -> (r: Vec<Started>)
    ensures
        r@ == missing(all@, fs@, ports@, guest, allow_public, macos),
{
    let mut r: Vec<Started> = Vec::new();
    let mut i: usize = 0;
    assert(all@.take(0) =~= Seq::empty());
    while i < all.len()
        invariant
            i <= all@.len(),
            r@ == missing(all@.take(i as int), fs@, ports@, guest, allow_public, macos),
        decreases all@.len() - i,
    {
        let p: u16 = all[i];
        proof {
            let longer = all@.take(i as int + 1);
            assert(longer.drop_last() =~= all@.take(i as int));
            assert(longer.last() == p);
        }
        if !forwards_port(fs, p) {
            let f: Forward = want(ports, p, guest, allow_public);
            let dial: Option<[u8; 4]> = if macos && !f.guest_loopback {
                guest
            } else {
                None
            };
            r.push(Started { forward: f, dial });
        }
        i = i + 1;
    }
    assert(all@.take(all@.len() as int) =~= all@);
    r
}

/// What a tick asks for.
#[derive(Debug)]
pub struct Plan {
    pub stop: Vec<Stopped>,
    pub start: Vec<Started>,
}

/// The policy of the forwards.
#[derive(Debug, Clone, Copy)]
pub struct NetConfig {
    pub k8s_port: u16,
    /// Bind published ports to the address that the container asked for,
    /// rather than to 127.0.0.1.
    pub allow_public_publish: bool,
    pub macos: bool,
}

/// What is known of the guest's network, and the forwards that run.
#[derive(Debug)]
pub struct NetState {
    /// The guest's address.
    pub guest_ip: Option<[u8; 4]>,
    /// Container names: the entries of the DNS zone.
    pub names: Vec<String>,
    /// Host ports published by containers, and the apiserver's.
    pub published_tcp: Vec<u16>,
    pub forwards: Vec<Forward>,
}

/// How a listing changes what is known, and what is done about it.
pub open spec fn reconciled(
    was: NetState,
    guest: Option<[u8; 4]>,
    containers: Option<Vec<ContainerInfo>>,
    cfg: NetConfig,
    now: NetState,
    plan: Plan,
) -> bool {
    match containers {
        None => now == was && plan.stop@.len() == 0 && plan.start@.len()
            == 0,
        Some(cs) => {
            let ports = all_ports(cs@);
            let all = with_port(distinct_ports(ports), cfg.k8s_port);
            let allow = cfg.allow_public_publish;
            &&& now.guest_ip == guest
            &&& crate::text::views(now.names@) == all_names(cs@)
            &&& now.published_tcp@ == all
            &&& if cfg.macos && guest is None {
                now.forwards == was.forwards && plan.stop@.len() == 0
                    && plan.start@.len() == 0
            } else {
                &&& now.forwards@ == kept(
                    was.forwards@,
                    ports,
                    all,
                    guest,
                    allow,
                )
                &&& plan.stop@ == dropped(was.forwards@, ports, all, guest, allow)
                &&& plan.start@ == missing(
                    all,
                    now.forwards@,
                    ports,
                    guest,
                    allow,
                    cfg.macos,
                )
            }
        },
    }
}

impl NetState {
    pub fn new() -> (s: NetState)
        ensures
            s.guest_ip is None,
            s.names@.len() == 0,
            s.published_tcp@.len() == 0,
            s.forwards@.len() == 0,
    {
        NetState {
            guest_ip: None,
            names: Vec::new(),
            published_tcp: Vec::new(),
            forwards: Vec::new(),
        }
    }

    /// Reconcile with a container listing. A failed listing is not an empty
    /// engine: it leaves the forwards and the names exactly as they are. On
    /// macOS the forwards wait until the guest's address is known.
    pub fn tick(
        &mut self,
        guest: Option<[u8; 4]>,
        containers: &Option<Vec<ContainerInfo>>,
        cfg: NetConfig,
    ) -> (plan: Plan)
        ensures
            reconciled(*old(self), guest, *containers, cfg, *final(self), plan),
    {
        match containers {
            None => Plan { stop: Vec::new(), start: Vec::new() },
            Some(cs) => {
                let ports: Vec<PublishedPort> = collect_ports(cs);
                let all: Vec<u16> = wanted_ports(&ports, cfg.k8s_port);
                self.guest_ip = guest;
                self.names = collect_names(cs);
                if cfg.macos && guest.is_none() {
                    self.published_tcp = all;
                    return Plan { stop: Vec::new(), start: Vec::new() };
                }
                let (keep, stop) = sort_out(
                    &self.forwards,
                    &ports,
                    &all,
                    guest,
                    cfg.allow_public_publish,
                );
                let start: Vec<Started> = find_missing(
                    &all,
                    &keep,
                    &ports,
                    guest,
                    cfg.allow_public_publish,
                    cfg.macos,
                );
                self.forwards = keep;
                self.published_tcp = all;
                Plan { stop, start }
            },
        }
    }

    /// A forward came up. One that could not listen is tried again at the next
    /// tick.
    pub fn started(&mut self, f: Forward)
        ensures
            final(self).forwards@ == (if has_forward(old(self).forwards@, f.port) {
                old(self).forwards@
            } else {
                old(self).forwards@.push(f)
            }),
            final(self).guest_ip == old(self).guest_ip,
            final(self).names == old(self).names,
            final(self).published_tcp == old(self).published_tcp,
    {
        if !forwards_port(&self.forwards, f.port) {
            self.forwards.push(f);
        }
    }
}

/// While nothing changes, no forward is touched: connections through the ports
/// live on.
pub proof fn unchanged_forwards_stay(
    fs: Seq<Forward>,
    ports: Seq<PublishedPort>,
    all: Seq<u16>,
    guest: Option<[u8; 4]>,
    allow_public: bool,
)
    requires
        forall|i: int|
            0 <= i < fs.len() ==> stays(#[trigger] fs[i], ports, all, guest, allow_public),
    ensures
        kept(fs, ports, all, guest, allow_public) == fs,
        dropped(fs, ports, all, guest, allow_public).len() == 0,
    decreases fs.len(),
{
    if fs.len() > 0 {
        let short = fs.drop_last();
        assert forall|i: int| 0 <= i < short.len() implies stays(
            #[trigger] short[i],
            ports,
            all,
            guest,
            allow_public,
        ) by {
            assert(short[i] == fs[i]);
        }
        unchanged_forwards_stay(short, ports, all, guest, allow_public);
        assert(stays(fs[fs.len() - 1], ports, all, guest, allow_public));
        assert(short.push(fs.last()) =~= fs);
    } else {
        assert(kept(fs, ports, all, guest, allow_public) =~= fs);
    }
}

proof fn lemma_missing_has(
    all: Seq<u16>,
    fs: Seq<Forward>,
    ports: Seq<PublishedPort>,
    guest: Option<[u8; 4]>,
    allow_public: bool,
    macos: bool,
    p: u16,
)
    requires
        all.contains(p),
        !has_forward(fs, p),
    ensures
        exists|i: int|
            0 <= i < missing(all, fs, ports, guest, allow_public, macos).len() && (#[trigger] missing(
                all,
                fs,
                ports,
                guest,
                allow_public,
                macos,
            )[i]).forward == wanted(ports, p, guest, allow_public),
    decreases all.len(),
{
    let m = missing(all, fs, ports, guest, allow_public, macos);
    if all.last() == p {
        assert(m[m.len() - 1].forward == wanted(ports, p, guest, allow_public));
    } else {
        let short = all.drop_last();
        let k = choose|k: int| 0 <= k < all.len() && all[k] == p;
        assert(short[k] == p);
        lemma_missing_has(short, fs, ports, guest, allow_public, macos, p);
        let n = missing(short, fs, ports, guest, allow_public, macos);
        let i = choose|i: int|
            0 <= i < n.len() && (#[trigger] n[i]).forward == wanted(ports, p, guest, allow_public);
        assert(m[i] == n[i]);
    }
}

proof fn lemma_kept_stays(
    fs: Seq<Forward>,
    ports: Seq<PublishedPort>,
    all: Seq<u16>,
    guest: Option<[u8; 4]>,
    allow_public: bool,
)
    ensures
        forall|i: int|
            0 <= i < kept(fs, ports, all, guest, allow_public).len() ==> stays(
                #[trigger] kept(fs, ports, all, guest, allow_public)[i],
                ports,
                all,
                guest,
                allow_public,
            ),
    decreases fs.len(),
{
    if fs.len() > 0 {
        let short = kept(fs.drop_last(), ports, all, guest, allow_public);
        let k = kept(fs, ports, all, guest, allow_public);
        lemma_kept_stays(fs.drop_last(), ports, all, guest, allow_public);
        assert forall|i: int| 0 <= i < k.len() implies stays(
            #[trigger] k[i],
            ports,
            all,
            guest,
            allow_public,
        ) by {
            if i < short.len() {
                assert(k[i] == short[i]);
            }
        }
    }
}

/// After a tick every wanted port has the forward it should have, either
/// because it ran already or because it is to be started.
pub proof fn every_port_is_forwarded(
    fs: Seq<Forward>,
    ports: Seq<PublishedPort>,
    all: Seq<u16>,
    guest: Option<[u8; 4]>,
    allow_public: bool,
    macos: bool,
    p: u16,
)
    requires
        all.contains(p),
    ensures
        ({
            let keep = kept(fs, ports, all, guest, allow_public);
            let start = missing(all, keep, ports, guest, allow_public, macos);
            let w = wanted(ports, p, guest, allow_public);
            (exists|i: int| 0 <= i < keep.len() && #[trigger] keep[i] == w) || (exists|i: int|
                0 <= i < start.len() && (#[trigger] start[i]).forward == w)
        }),
{
    let keep = kept(fs, ports, all, guest, allow_public);
    let w = wanted(ports, p, guest, allow_public);
    if has_forward(keep, p) {
        let i = choose|i: int| 0 <= i < keep.len() && (#[trigger] keep[i]).port == p;
        lemma_kept_stays(fs, ports, all, guest, allow_public);
        assert(keep[i] == w);
    } else {
        lemma_missing_has(all, keep, ports, guest, allow_public, macos, p);
    }
}

/// Unless the instance has opted in, every forward listens on 127.0.0.1.
pub proof fn publishes_stay_local(ports: Seq<PublishedPort>, p: u16, guest: Option<[u8; 4]>)
    ensures
        wanted(ports, p, guest, false).bind == localhost_ip(),
{
    lemma_clamped(ports, p);
}

proof fn lemma_clamped(ports: Seq<PublishedPort>, p: u16)
    ensures
        match host_bind(ports, p, false) {
            Some(ip) => ip == localhost_ip(),
            None => true,
        },
    decreases ports.len(),
{
    if ports.len() > 0 {
        lemma_clamped(ports.drop_last(), p);
    }
}

// --- the DNS zone -----------------------------------------------------------------

pub open spec fn without_dots(s: Seq<char>) -> Seq<char>
    decreases s.len(),
{
    if s.len() > 0 && s.last() == '.' {
        without_dots(s.drop_last())
    } else {
        s
    }
}

pub(crate) fn strip_dots(s: &str) -> (r: String)
    ensures
        r@ == without_dots(s@),
{
    let v: Vec<char> = crate::text::to_chars(s);
    let mut n: usize = v.len();
    assert(s@.take(n as int) =~= s@);
    while n > 0 && v[n - 1] == '.'
        invariant
            v@ == s@,
            n <= v@.len(),
            without_dots(s@.take(n as int)) == without_dots(s@),
        decreases n,
    {
        proof {
            let cur = s@.take(n as int);
            assert(cur.last() == '.');
            assert(cur.drop_last() =~= s@.take(n - 1));
        }
        n = n - 1;
    }
    assert(n > 0 ==> s@.take(n as int).last() == v@[n - 1]);
    assert(s@.subrange(0, n as int) =~= s@.take(n as int));
    crate::text::from_chars(&v, 0, n)
}

/// The name that a question asks for: in lower case, without trailing dots.
pub open spec fn asked_name(q: crate::dns::QuestionView) -> Seq<char> {
    crate::text::ascii_lower(without_dots(q.name))
}

/// Whether a name belongs to the zone: the zone itself, or below it.
pub open spec fn in_zone(name: Seq<char>, zone: Seq<char>) -> bool {
    name == zone || crate::text::has_suffix(name, "."@ + zone)
}

/// Whether the zone has a name: its own, the vessel's, a container's.
pub open spec fn zone_has(name: Seq<char>, zone: Seq<char>, names: Seq<Seq<char>>) -> bool {
    let label = crate::text::without_suffix(name, "."@ + zone);
    name == zone || label == "vessel"@ || names.contains(label)
}

/// How a question is answered.
#[derive(Debug)]
pub enum Answer {
    /// With this packet.
    Packet(Vec<u8>),
    /// By the host's resolver, which is asked for this name.
    Resolve(String),
}

/// How a question is answered, by names and address of the zone.
pub open spec fn answered(
    id: u16,
    q: crate::dns::QuestionView,
    guest: Option<[u8; 4]>,
    names: Seq<Seq<char>>,
    zone: Seq<char>,
    r: Answer,
) -> bool {
    let name = asked_name(q);
    match r {
        Answer::Packet(p) => in_zone(name, zone) && p@ == (match guest {
            None => crate::dns::error_bytes(id, q, false),
            Some(ip) => if zone_has(name, zone, names) {
                crate::dns::response_bytes(id, q, seq![IpAddr::V4(ip)], 5)
            } else {
                crate::dns::error_bytes(id, q, true)
            },
        }),
        Answer::Resolve(n) => !in_zone(name, zone) && n@ == name,
    }
}

/// Answer a question. Names of the zone are the guest's address, where that is
/// known; everything else is left to the host's resolver.
pub fn answer(
    id: u16,
    q: &Question,
    guest: Option<[u8; 4]>,
    names: &Vec<String>,
    zone: &str,
) -> (r: Answer)
    ensures
        answered(id, q@, guest, crate::text::views(names@), zone@, r),
{
    let bare: String = strip_dots(q.name.as_str());
    let name: String = to_ascii_lowercase(bare.as_str());
    let suffix: String = cat2(".", zone);
    if !same(name.as_str(), zone) && !ends_with(name.as_str(), suffix.as_str()) {
        return Answer::Resolve(name);
    }
    match guest {
        None => Answer::Packet(build_error(id, q, false)),
        Some(ip) => {
            proof {
                reveal_strlit(".");
            }
            let label: String = strip_all(name.as_str(), suffix.as_str());
            let known: bool = same(name.as_str(), zone) || same(label.as_str(), "vessel")
                || list_has(names, label.as_str());
            if known {
                let ips: Vec<IpAddr> = vec![IpAddr::V4(ip)];
                assert(ips@ =~= seq![IpAddr::V4(ip)]);
                Answer::Packet(build_response(id, q, ips.as_slice(), 5))
            } else {
                Answer::Packet(build_error(id, q, true))
            }
        },
    }
}

/// Answer with what the host's resolver found; none is no such name.
pub fn resolved(id: u16, q: &Question, found: &Option<Vec<IpAddr>>) -> (p: Vec<u8>)
    ensures
        p@ == (match *found {
            Some(ips) => crate::dns::response_bytes(id, q@, ips@, 30),
            None => crate::dns::error_bytes(id, q@, true),
        }),
{
    match found {
        Some(ips) => build_response(id, q, ips.as_slice(), 30),
        None => build_error(id, q, true),
    }
}

// What the forwards are for.

/// The host itself is 127.0.0.0/8 and ::1, the wildcard is all zeroes, and a
/// publish that names no usable address is on the IPv4 wildcard.
pub proof fn addresses_of_the_host(ip: IpAddr)
    ensures
        ip matches IpAddr::V4(a) ==> (loopback(ip) <==> a@[0] == 127) && (unspecified(ip) <==> a@
            == seq![0u8, 0u8, 0u8, 0u8]),
        ip matches IpAddr::V6(a) ==> (loopback(ip) <==> a@ == seq![
            0u8, 0u8, 0u8, 0u8, 0u8, 0u8, 0u8, 0u8, 0u8, 0u8, 0u8, 0u8, 0u8, 0u8, 0u8, 1u8,
        ]),
        !(loopback(ip) && unspecified(ip)),
        localhost_ip() matches IpAddr::V4(a) && a@ == seq![127u8, 0u8, 0u8, 1u8],
        wildcard_ip() matches IpAddr::V4(a) && a@ == seq![0u8, 0u8, 0u8, 0u8],
        loopback(localhost_ip()),
        unspecified(wildcard_ip()),
{
    match ip {
        IpAddr::V4(a) => {
            if unspecified(ip) {
                assert(a@ =~= seq![0u8, 0u8, 0u8, 0u8]);
            }
        },
        IpAddr::V6(a) => {
            let one = seq![
                0u8, 0u8, 0u8, 0u8, 0u8, 0u8, 0u8, 0u8, 0u8, 0u8, 0u8, 0u8, 0u8, 0u8, 0u8, 1u8,
            ];
            if loopback(ip) {
                assert(a@ =~= one);
            }
            if a@ == one {
                assert forall|i: int| 0 <= i < 15 implies #[trigger] a@[i] == 0 by {
                    assert(one[i] == 0);
                }
            }
            if unspecified(ip) {
                assert(a@[15] == 0);
            }
        },
    }
}

/// Whether an address serves all that another does: the wildcard serves all,
/// and the host itself only the host. Of two that serve the same, the IPv4 one
/// goes first.
pub open spec fn serves(a: IpAddr, b: IpAddr) -> bool {
    &&& unspecified(b) ==> unspecified(a)
    &&& !loopback(b) ==> !loopback(a)
    &&& (unspecified(a) == unspecified(b) && loopback(a) == loopback(b) && b is V4) ==> a is V4
}

proof fn lemma_serves(a: IpAddr, b: IpAddr)
    ensures
        !is_wider(b, a) <==> serves(a, b),
{
    addresses_of_the_host(a);
    addresses_of_the_host(b);
}

/// The host address of a published port, and whether it is on the guest's
/// loopback, as the mappings of the port say.
pub open spec fn said_of(maps: Seq<Mapping>, p: PublishedPort) -> bool {
    &&& exists|i: int|
        0 <= i < maps.len() && (#[trigger] maps[i]).port == p.port && maps[i].host_ip == p.host_ip
    &&& forall|i: int|
        0 <= i < maps.len() && (#[trigger] maps[i]).port == p.port ==> serves(
            p.host_ip,
            maps[i].host_ip,
        )
    &&& p.guest_loopback <==> forall|i: int|
        0 <= i < maps.len() && (#[trigger] maps[i]).port == p.port ==> loopback(maps[i].host_ip)
}

proof fn lemma_port_at(ports: Seq<PublishedPort>, port: u16)
    ensures
        match port_at(ports, port) {
            Some(i) => 0 <= i < ports.len() && ports[i].port == port,
            None => forall|i: int| 0 <= i < ports.len() ==> (#[trigger] ports[i]).port != port,
        },
    decreases ports.len(),
{
    if ports.len() > 0 {
        let short = ports.drop_last();
        lemma_port_at(short, port);
        if ports.last().port != port && port_at(short, port) is None {
            assert forall|i: int| 0 <= i < ports.len() implies (#[trigger] ports[i]).port
                != port by {
                if i < short.len() {
                    assert(short[i] == ports[i]);
                }
            }
        }
    }
}

proof fn lemma_same_ports(ports: Seq<PublishedPort>, i: int, x: PublishedPort, p: u16)
    requires
        0 <= i < ports.len(),
        x.port == ports[i].port,
    ensures
        port_at(ports.update(i, x), p) == port_at(ports, p),
    decreases ports.len(),
{
    let new = ports.update(i, x);
    if i < ports.len() - 1 {
        lemma_same_ports(ports.drop_last(), i, x, p);
        assert(new.drop_last() =~= ports.drop_last().update(i, x));
    } else {
        assert(new.drop_last() =~= ports.drop_last());
    }
}

proof fn lemma_said_same(maps: Seq<Mapping>, q: PublishedPort)
    requires
        maps.len() > 0,
        maps.last().port != q.port,
        said_of(maps.drop_last(), q),
    ensures
        said_of(maps, q),
{
    let short = maps.drop_last();
    let w = choose|i: int|
        0 <= i < short.len() && (#[trigger] short[i]).port == q.port && short[i].host_ip
            == q.host_ip;
    assert(maps[w] == short[w]);
    assert forall|k: int| 0 <= k < maps.len() && (#[trigger] maps[k]).port == q.port implies serves(
        q.host_ip,
        maps[k].host_ip,
    ) by {
        assert(short[k] == maps[k]);
    }
    if q.guest_loopback {
        assert forall|k: int| 0 <= k < maps.len() && (#[trigger] maps[k]).port
            == q.port implies loopback(maps[k].host_ip) by {
            assert(short[k] == maps[k]);
        }
    } else {
        let k = choose|k: int|
            0 <= k < short.len() && (#[trigger] short[k]).port == q.port && !loopback(
                short[k].host_ip,
            );
        assert(maps[k] == short[k]);
    }
}

proof fn lemma_said_more(maps: Seq<Mapping>, q: PublishedPort)
    requires
        maps.len() > 0,
        maps.last().port == q.port,
        said_of(maps.drop_last(), q),
    ensures
        said_of(
            maps,
            PublishedPort {
                port: q.port,
                guest_loopback: q.guest_loopback && loopback(maps.last().host_ip),
                host_ip: if is_wider(maps.last().host_ip, q.host_ip) {
                    maps.last().host_ip
                } else {
                    q.host_ip
                },
            },
        ),
{
    let short = maps.drop_last();
    let m = maps.last();
    let n = maps.len() - 1;
    let ip = if is_wider(m.host_ip, q.host_ip) {
        m.host_ip
    } else {
        q.host_ip
    };
    assert(maps[n] == m);
    let w = choose|i: int|
        0 <= i < short.len() && (#[trigger] short[i]).port == q.port && short[i].host_ip
            == q.host_ip;
    assert(maps[w] == short[w]);
    lemma_serves(q.host_ip, m.host_ip);
    assert forall|k: int| 0 <= k < maps.len() && (#[trigger] maps[k]).port == q.port implies serves(
        ip,
        maps[k].host_ip,
    ) by {
        if k < n {
            assert(short[k] == maps[k]);
            lemma_serves(q.host_ip, maps[k].host_ip);
        }
        lemma_serves(ip, maps[k].host_ip);
    }
    if q.guest_loopback && loopback(m.host_ip) {
        assert forall|k: int| 0 <= k < maps.len() && (#[trigger] maps[k]).port
            == q.port implies loopback(maps[k].host_ip) by {
            if k < n {
                assert(short[k] == maps[k]);
            }
        }
    } else if !q.guest_loopback {
        let k = choose|k: int|
            0 <= k < short.len() && (#[trigger] short[k]).port == q.port && !loopback(
                short[k].host_ip,
            );
        assert(maps[k] == short[k]);
    }
}

proof fn lemma_said_first(maps: Seq<Mapping>)
    requires
        maps.len() > 0,
        forall|k: int| 0 <= k < maps.len() - 1 ==> (#[trigger] maps[k]).port != maps.last().port,
    ensures
        said_of(
            maps,
            PublishedPort {
                port: maps.last().port,
                guest_loopback: loopback(maps.last().host_ip),
                host_ip: maps.last().host_ip,
            },
        ),
{
    let n = maps.len() - 1;
    assert(maps[n] == maps.last());
    lemma_serves(maps.last().host_ip, maps.last().host_ip);
}

proof fn lemma_said(maps: Seq<Mapping>, p: u16)
    ensures
        match port_at(published(maps), p) {
            Some(i) => said_of(maps, published(maps)[i]) && published(maps)[i].port == p && 0 <= i
                < published(maps).len(),
            None => forall|k: int| 0 <= k < maps.len() ==> (#[trigger] maps[k]).port != p,
        },
    decreases maps.len(),
{
    if maps.len() > 0 {
        let short = maps.drop_last();
        let m = maps.last();
        let before = published(short);
        let after = published(maps);
        lemma_said(short, p);
        lemma_port_at(before, m.port);
        assert forall|k: int| 0 <= k < short.len() implies #[trigger] maps[k] == short[k] by {}
        assert(after.len() >= before.len());
        match port_at(before, m.port) {
            Some(i) => {
                let x = after[i];
                assert(after == before.update(i, x));
                lemma_same_ports(before, i, x, p);
                if p == m.port {
                    lemma_said_more(maps, before[i]);
                } else if let Some(j) = port_at(before, p) {
                    assert(after[j] == before[j]);
                    lemma_said_same(maps, before[j]);
                }
            },
            None => {
                assert(after.drop_last() =~= before);
                if p == m.port {
                    assert forall|k: int| 0 <= k < maps.len() - 1 implies (#[trigger] maps[k]).port
                        != m.port by {
                        assert(short[k].port != p);
                    }
                    lemma_said_first(maps);
                } else if let Some(j) = port_at(before, p) {
                    assert(after[j] == before[j]);
                    lemma_said_same(maps, before[j]);
                }
            },
        }
        if port_at(after, p) is None {
            assert forall|k: int| 0 <= k < maps.len() implies (#[trigger] maps[k]).port != p by {
                if k < short.len() {
                    assert(short[k].port != p);
                }
            }
        }
    }
}

proof fn lemma_once(maps: Seq<Mapping>, i: int)
    requires
        0 <= i < published(maps).len(),
    ensures
        port_at(published(maps), published(maps)[i].port) == Some(i),
    decreases maps.len(),
{
    if maps.len() > 0 {
        let short = maps.drop_last();
        let m = maps.last();
        let before = published(short);
        let after = published(maps);
        lemma_port_at(before, m.port);
        match port_at(before, m.port) {
            Some(at) => {
                lemma_once(short, i);
                lemma_same_ports(before, at, after[at], before[i].port);
                assert(after == before.update(at, after[at]));
            },
            None => {
                assert(after.drop_last() =~= before);
                if i < before.len() {
                    lemma_once(short, i);
                    assert(before[i].port != m.port);
                }
            },
        }
    }
}

/// Every port that is mapped is published, and once; on the broadest address of
/// its mappings, and on the guest's loopback just where all of them are.
pub proof fn a_port_is_published_once(maps: Seq<Mapping>, i: int, j: int, k: int)
    requires
        0 <= i < published(maps).len(),
        0 <= j < published(maps).len(),
        0 <= k < maps.len(),
    ensures
        said_of(maps, published(maps)[i]),
        i != j ==> published(maps)[i].port != published(maps)[j].port,
        exists|n: int|
            0 <= n < published(maps).len() && (#[trigger] published(maps)[n]).port == maps[k].port,
{
    lemma_once(maps, i);
    lemma_once(maps, j);
    lemma_said(maps, published(maps)[i].port);
    lemma_said(maps, maps[k].port);
    let n = port_at(published(maps), maps[k].port);
    assert(maps[k].port == maps[k].port);
    assert(published(maps)[n->0].port == maps[k].port);
}

/// The forward of a port leads to the guest, through the proxy just where all
/// its mappings are on the guest's loopback. It listens on 127.0.0.1 unless the
/// instance has opted in and some mapping asks for more; and on the broadest of
/// what they ask for.
pub proof fn what_a_forward_is_for(
    ports: Seq<PublishedPort>,
    p: u16,
    guest: Option<[u8; 4]>,
    allow_public: bool,
)
    ensures
        ({
            let f = wanted(ports, p, guest, allow_public);
            let mine = |i: int| 0 <= i < ports.len() && ports[i].port == p;
            &&& f.port == p
            &&& guest matches Some(ip) ==> f.guest == ip
            &&& f.guest_loopback <==> (exists|i: int| #[trigger] mine(i)) && (forall|i: int|
                #[trigger] mine(i) ==> ports[i].guest_loopback)
            &&& (!allow_public || forall|i: int|
                #[trigger] mine(i) ==> loopback(ports[i].host_ip)) ==> f.bind == localhost_ip()
            &&& f.bind == localhost_ip() || exists|i: int|
                #[trigger] mine(i) && f.bind == ports[i].host_ip
            &&& allow_public ==> forall|i: int|
                #[trigger] mine(i) && !loopback(ports[i].host_ip) ==> serves(
                    f.bind,
                    ports[i].host_ip,
                )
        }),
{
    let f = wanted(ports, p, guest, allow_public);
    let mine = |i: int| 0 <= i < ports.len() && ports[i].port == p;
    lemma_bind(ports, p, allow_public);
    if is_published(ports, p) {
        let i = choose|i: int| 0 <= i < ports.len() && (#[trigger] ports[i]).port == p;
        assert(mine(i));
    }
    if f.guest_loopback {
        assert forall|i: int| #[trigger] mine(i) implies ports[i].guest_loopback by {
            assert(ports[i].port == p);
        }
    } else if exists|i: int| #[trigger] mine(i) {
        let w = choose|i: int| #[trigger] mine(i);
        assert(ports[w].port == p);
        assert(is_published(ports, p));
        let i = choose|i: int|
            0 <= i < ports.len() && (#[trigger] ports[i]).port == p && !ports[i].guest_loopback;
        assert(mine(i));
    }
    if f.bind != localhost_ip() {
        let i = choose|i: int|
            0 <= i < ports.len() && (#[trigger] ports[i]).port == p && f.bind == ports[i].host_ip
                && !loopback(ports[i].host_ip) && allow_public;
        assert(mine(i));
    }
    if allow_public {
        assert forall|i: int| #[trigger] mine(i) && !loopback(ports[i].host_ip) implies serves(
            f.bind,
            ports[i].host_ip,
        ) by {
            assert(ports[i].port == p);
        }
    }
}

proof fn lemma_bind(ports: Seq<PublishedPort>, p: u16, allow_public: bool)
    ensures
        match host_bind(ports, p, allow_public) {
            None => forall|i: int| 0 <= i < ports.len() ==> (#[trigger] ports[i]).port != p,
            Some(ip) => {
                &&& ip == localhost_ip() || exists|i: int|
                    0 <= i < ports.len() && (#[trigger] ports[i]).port == p && ip
                        == ports[i].host_ip && !loopback(ports[i].host_ip) && allow_public
                &&& allow_public ==> forall|i: int|
                    0 <= i < ports.len() && (#[trigger] ports[i]).port == p && !loopback(
                        ports[i].host_ip,
                    ) ==> serves(ip, ports[i].host_ip)
            },
        },
    decreases ports.len(),
{
    if ports.len() > 0 {
        let short = ports.drop_last();
        let n = ports.len() - 1;
        lemma_bind(short, p, allow_public);
        let before = host_bind(short, p, allow_public);
        let want = bind_of(ports.last().host_ip, allow_public);
        assert(ports[n] == ports.last());
        if let Some(cur) = before {
            lemma_serves(want, cur);
            lemma_serves(cur, want);
            if cur != localhost_ip() {
                let k = choose|i: int|
                    0 <= i < short.len() && (#[trigger] short[i]).port == p && cur
                        == short[i].host_ip && !loopback(short[i].host_ip) && allow_public;
                assert(ports[k] == short[k]);
            }
        }
        if let Some(ip) = host_bind(ports, p, allow_public) {
            assert forall|i: int| allow_public && 0 <= i < ports.len() && (#[trigger] ports[i]).port
                == p && !loopback(ports[i].host_ip) implies serves(ip, ports[i].host_ip) by {
                if i < n {
                    assert(short[i] == ports[i]);
                    lemma_serves(before->0, ports[i].host_ip);
                }
                lemma_serves(ip, ports[i].host_ip);
                lemma_serves(want, ports[i].host_ip);
            }
        } else {
            assert forall|i: int| 0 <= i < ports.len() implies (#[trigger] ports[i]).port != p by {
                if i < n {
                    assert(short[i] == ports[i]);
                }
            }
        }
    }
}

/// The ports that are to be reached are those that are published and the
/// apiserver's, each once.
pub proof fn which_ports_are_wanted(ports: Seq<PublishedPort>, k8s_port: u16, p: u16)
    ensures
        ({
            let all = with_port(distinct_ports(ports), k8s_port);
            &&& all.contains(p) <==> (p == k8s_port || exists|i: int|
                0 <= i < ports.len() && (#[trigger] ports[i]).port == p)
            &&& all.no_duplicates()
        }),
{
    lemma_distinct(ports, p);
    let d = distinct_ports(ports);
    let all = with_port(d, k8s_port);
    if !d.contains(k8s_port) {
        assert(all[d.len() as int] == k8s_port);
        if d.contains(p) {
            let i = choose|i: int| 0 <= i < d.len() && d[i] == p;
            assert(all[i] == p);
        }
        if all.contains(p) && p != k8s_port {
            let i = choose|i: int| 0 <= i < all.len() && all[i] == p;
            assert(d[i] == p);
        }
        assert(all.no_duplicates()) by {
            assert forall|i: int, j: int|
                0 <= i < all.len() && 0 <= j < all.len() && i != j implies all[i] != all[j] by {
                if i < d.len() {
                    assert(d.contains(d[i]));
                }
                if j < d.len() {
                    assert(d.contains(d[j]));
                }
            }
        }
    }
}

proof fn lemma_distinct(ports: Seq<PublishedPort>, p: u16)
    ensures
        distinct_ports(ports).contains(p) <==> exists|i: int|
            0 <= i < ports.len() && (#[trigger] ports[i]).port == p,
        distinct_ports(ports).no_duplicates(),
    decreases ports.len(),
{
    if ports.len() > 0 {
        let short = ports.drop_last();
        let d = distinct_ports(short);
        let q = ports.last().port;
        let all = distinct_ports(ports);
        lemma_distinct(short, p);
        lemma_distinct(short, q);
        assert(ports[ports.len() - 1].port == q);
        if exists|i: int| 0 <= i < short.len() && (#[trigger] short[i]).port == p {
            let i = choose|i: int| 0 <= i < short.len() && (#[trigger] short[i]).port == p;
            assert(ports[i] == short[i]);
        }
        if exists|i: int| 0 <= i < ports.len() && (#[trigger] ports[i]).port == p {
            let i = choose|i: int| 0 <= i < ports.len() && (#[trigger] ports[i]).port == p;
            if i < short.len() {
                assert(short[i].port == p);
            }
        }
        if !d.contains(q) {
            assert(all[d.len() as int] == q);
            if d.contains(p) {
                let i = choose|i: int| 0 <= i < d.len() && d[i] == p;
                assert(all[i] == p);
            }
            if all.contains(p) && p != q {
                let i = choose|i: int| 0 <= i < all.len() && all[i] == p;
                assert(d[i] == p);
            }
            assert forall|i: int, j: int|
                0 <= i < all.len() && 0 <= j < all.len() && i != j implies all[i] != all[j] by {
                if i < d.len() {
                    assert(d.contains(d[i]));
                }
                if j < d.len() {
                    assert(d.contains(d[j]));
                }
            }
        }
    }
}

/// A forward that runs is kept just where its port is still wanted and it is
/// what the port should have; otherwise it is stopped, its listener woken at
/// the address it listens on, or on 127.0.0.1 for the wildcard.
pub proof fn a_forward_is_kept_or_stopped(
    fs: Seq<Forward>,
    ports: Seq<PublishedPort>,
    all: Seq<u16>,
    guest: Option<[u8; 4]>,
    allow_public: bool,
    f: Forward,
)
    requires
        fs.contains(f),
    ensures
        ({
            let right = all.contains(f.port) && f == wanted(ports, f.port, guest, allow_public);
            &&& kept(fs, ports, all, guest, allow_public).contains(f) <==> right
            &&& !right ==> dropped(fs, ports, all, guest, allow_public).contains(
                Stopped {
                    port: f.port,
                    nudge: if unspecified(f.bind) {
                        localhost_ip()
                    } else {
                        f.bind
                    },
                },
            )
        }),
    decreases fs.len(),
{
    let short = fs.drop_last();
    let (k, d) = (
        kept(fs, ports, all, guest, allow_public),
        dropped(fs, ports, all, guest, allow_public),
    );
    let (k0, d0) = (
        kept(short, ports, all, guest, allow_public),
        dropped(short, ports, all, guest, allow_public),
    );
    lemma_kept_stays(fs, ports, all, guest, allow_public);
    let at = choose|i: int| 0 <= i < fs.len() && fs[i] == f;
    if at < short.len() {
        assert(short[at] == f);
        a_forward_is_kept_or_stopped(short, ports, all, guest, allow_public, f);
        if k0.contains(f) {
            let i = choose|i: int| 0 <= i < k0.len() && k0[i] == f;
            assert(k[i] == f);
        }
        let s = Stopped { port: f.port, nudge: nudge_of(f.bind) };
        if d0.contains(s) {
            let i = choose|i: int| 0 <= i < d0.len() && d0[i] == s;
            assert(d[i] == s);
        }
    } else {
        if stays(f, ports, all, guest, allow_public) {
            assert(k[k.len() - 1] == f);
        } else {
            assert(d[d.len() - 1] == (Stopped { port: f.port, nudge: nudge_of(f.bind) }));
        }
    }
    if k.contains(f) {
        let i = choose|i: int| 0 <= i < k.len() && k[i] == f;
        assert(stays(k[i], ports, all, guest, allow_public));
    }
}

/// Nothing is started but what a wanted port should have and does not; macOS
/// dials the guest's address, but where the port is on the guest's loopback,
/// and all else goes through the proxy.
pub proof fn what_is_started_is_missing(
    all: Seq<u16>,
    fs: Seq<Forward>,
    ports: Seq<PublishedPort>,
    guest: Option<[u8; 4]>,
    allow_public: bool,
    macos: bool,
    i: int,
)
    requires
        0 <= i < missing(all, fs, ports, guest, allow_public, macos).len(),
    ensures
        ({
            let s = missing(all, fs, ports, guest, allow_public, macos)[i];
            &&& all.contains(s.forward.port)
            &&& s.forward == wanted(ports, s.forward.port, guest, allow_public)
            &&& forall|j: int| 0 <= j < fs.len() ==> (#[trigger] fs[j]).port != s.forward.port
            &&& s.dial == (if macos && !s.forward.guest_loopback {
                guest
            } else {
                None
            })
        }),
    decreases all.len(),
{
    if all.len() > 0 {
        let short = all.drop_last();
        let n = missing(short, fs, ports, guest, allow_public, macos);
        let m = missing(all, fs, ports, guest, allow_public, macos);
        if i < n.len() {
            what_is_started_is_missing(short, fs, ports, guest, allow_public, macos, i);
            assert(m[i] == n[i]);
            let k = choose|k: int| 0 <= k < short.len() && short[k] == n[i].forward.port;
            assert(all[k] == n[i].forward.port);
        } else {
            assert(all[all.len() - 1] == m[i].forward.port);
        }
    }
}

/// A name is of the zone just where it is the zone, or ends in a dot and the
/// zone.
pub proof fn what_is_in_the_zone(name: Seq<char>, zone: Seq<char>)
    ensures
        in_zone(name, zone) <==> (name == zone || exists|below: Seq<char>|
            name == #[trigger] below.push('.') + zone),
{
    reveal_strlit(".");
    let s = "."@ + zone;
    let n = name.len() - s.len();
    if crate::text::has_suffix(name, s) {
        let below = name.subrange(0, n);
        assert forall|k: int| 0 <= k < s.len() implies name[n + k] == #[trigger] s[k] by {
            assert(name.subrange(n, n + s.len())[k] == name[n + k]);
        }
        assert(name =~= below.push('.') + zone) by {
            assert forall|k: int| 0 <= k < name.len() implies name[k] == (below.push('.')
                + zone)[k] by {
                if k >= n {
                    assert(name[n + (k - n)] == s[k - n]);
                }
            }
        }
    }
    if exists|below: Seq<char>| name == #[trigger] below.push('.') + zone {
        let below = choose|below: Seq<char>| name == #[trigger] below.push('.') + zone;
        assert(name.subrange(n, n + s.len()) =~= s);
    }
}

/// Below the zone, the vessel and every container have a name, and nothing else
/// does. The name is not itself followed by the zone.
pub proof fn what_the_zone_has(below: Seq<char>, zone: Seq<char>, names: Seq<Seq<char>>)
    requires
        !crate::text::has_suffix(below, "."@ + zone),
    ensures
        zone_has(zone, zone, names),
        zone_has(below.push('.') + zone, zone, names) <==> (below == "vessel"@ || names.contains(
            below,
        )),
{
    reveal_strlit(".");
    let s = "."@ + zone;
    let name = below.push('.') + zone;
    assert(name =~= below + s);
    assert(name.len() > zone.len());
    reveal_with_fuel(crate::text::without_suffix, 2);
    assert(name.subrange(name.len() - s.len(), name.len() as int) =~= s);
    assert(name.take(name.len() - s.len()) =~= below);
}

/// The name that is asked for does not depend on the case of its letters nor on
/// dots behind it.
pub proof fn a_name_is_asked_for_in_any_case(a: crate::dns::QuestionView, b: crate::dns::QuestionView)
    ensures
        b.name == a.name.push('.') ==> asked_name(b) == asked_name(a),
        b.name == crate::text::ascii_lower(a.name) && without_dots(a.name) == a.name ==> asked_name(
            b,
        ) == asked_name(a),
        without_dots(a.name) == a.name ==> asked_name(a).len() == a.name.len() && forall|i: int|
            0 <= i < a.name.len() ==> #[trigger] asked_name(a)[i] == (if 'A' <= a.name[i] <= 'Z' {
                (a.name[i] as u32 + 32) as char
            } else {
                a.name[i]
            }),
{
    if b.name == a.name.push('.') {
        assert(b.name.drop_last() =~= a.name);
    }
    if b.name == crate::text::ascii_lower(a.name) && without_dots(a.name) == a.name {
        lemma_no_dots(a.name);
        if b.name.len() > 0 {
            assert(b.name.last() == crate::text::lower_char(a.name.last()));
        }
        assert(crate::text::ascii_lower(b.name) =~= b.name);
    }
}

proof fn lemma_no_dots(s: Seq<char>)
    requires
        without_dots(s) == s,
    ensures
        s.len() > 0 ==> s.last() != '.',
{
    if s.len() > 0 && s.last() == '.' {
        lemma_dots_shorten(s.drop_last());
    }
}

proof fn lemma_dots_shorten(s: Seq<char>)
    ensures
        without_dots(s).len() <= s.len(),
    decreases s.len(),
{
    if s.len() > 0 && s.last() == '.' {
        lemma_dots_shorten(s.drop_last());
    }
}

/// A container listing tells of every TCP port that is published, with its
/// address where that is given, and of no other.
pub proof fn what_a_listing_publishes(items: Seq<DocView>, port: u16, ip: Seq<char>)
    ensures
        ports_in(items).contains((port, ip)) <==> exists|i: int|
            0 <= i < items.len() && crate::doc::text_of(
                crate::doc::field(#[trigger] items[i], "Type"@),
            ) == Some("tcp"@) && (crate::doc::number_of(
                crate::doc::field(items[i], "PublicPort"@),
            ) matches Some(n) && n % 65536 == port) && ip == (match crate::doc::text_of(
                crate::doc::field(items[i], "IP"@),
            ) {
                Some(t) => t,
                None => Seq::empty(),
            }),
    decreases items.len(),
{
    let told = |d: DocView|
        crate::doc::text_of(crate::doc::field(d, "Type"@)) == Some("tcp"@)
            && (crate::doc::number_of(crate::doc::field(d, "PublicPort"@)) matches Some(n) && n
            % 65536 == port) && ip == (match crate::doc::text_of(crate::doc::field(d, "IP"@)) {
            Some(t) => t,
            None => Seq::empty(),
        });
    if items.len() > 0 {
        let short = items.drop_last();
        let (a, b) = (ports_in(short), ports_in(items));
        let n = items.len() - 1;
        what_a_listing_publishes(short, port, ip);
        assert(items[n] == items.last());
        assert(port_in(items.last()) == Some((port, ip)) <==> told(items.last()));
        if a.contains((port, ip)) {
            let i = choose|i: int| 0 <= i < a.len() && a[i] == (port, ip);
            assert(b[i] == (port, ip));
            let k = choose|k: int| 0 <= k < short.len() && told(#[trigger] short[k]);
            assert(items[k] == short[k]);
        }
        if told(items.last()) {
            assert(b[b.len() - 1] == (port, ip));
        }
        if b.contains((port, ip)) && !told(items.last()) {
            let i = choose|i: int| 0 <= i < b.len() && b[i] == (port, ip);
            assert(a[i] == (port, ip));
        }
        if exists|k: int| 0 <= k < items.len() && told(#[trigger] items[k]) {
            let k = choose|k: int| 0 <= k < items.len() && told(#[trigger] items[k]);
            if k < n {
                assert(short[k] == items[k]);
            }
        }
    }
}

/// A listing names every container by its texts, each without the slash before
/// it and in lower case.
pub proof fn what_a_listing_names(items: Seq<DocView>, name: Seq<char>)
    requires
        name.len() > 0 ==> name[0] != '/',
        items.contains(DocView::Str(seq!['/'] + name)),
    ensures
        names_in(items).contains(crate::text::ascii_lower(name)),
    decreases items.len(),
{
    let short = items.drop_last();
    let (a, b) = (names_in(short), names_in(items));
    let given = seq!['/'] + name;
    let at = choose|i: int| 0 <= i < items.len() && items[i] == DocView::Str(given);
    if at < short.len() {
        assert(short[at] == DocView::Str(given));
        what_a_listing_names(short, name);
        let i = choose|i: int| 0 <= i < a.len() && a[i] == crate::text::ascii_lower(name);
        assert(b[i] == a[i]);
    } else {
        reveal_with_fuel(crate::initramfs::without_slashes, 2);
        assert(given.skip(1) =~= name);
        assert(b[b.len() - 1] == crate::text::ascii_lower(name));
    }
}

/// A listing that failed changes nothing. Without the guest's address nothing
/// is started or stopped on macOS. Otherwise the state is that of the listing,
/// with the apiserver's port among the published ones.
pub proof fn what_a_listing_changes(
    was: NetState,
    guest: Option<[u8; 4]>,
    containers: Option<Vec<ContainerInfo>>,
    cfg: NetConfig,
    now: NetState,
    plan: Plan,
)
    requires
        reconciled(was, guest, containers, cfg, now, plan),
    ensures
        containers is None ==> now == was && plan.stop@.len() == 0 && plan.start@.len() == 0,
        containers is None || (cfg.macos && guest is None) ==> now.forwards == was.forwards
            && plan.stop@.len() == 0 && plan.start@.len() == 0,
        containers is Some ==> now.guest_ip == guest && now.published_tcp@.contains(cfg.k8s_port)
            && crate::text::views(now.names@) == all_names(containers->0@),
{
    if containers is Some {
        let d = distinct_ports(all_ports(containers->0@));
        let all = with_port(d, cfg.k8s_port);
        assert(all.contains(cfg.k8s_port)) by {
            if !d.contains(cfg.k8s_port) {
                assert(all[all.len() - 1] == cfg.k8s_port);
            }
        }
    }
}

/// Who asks for a name of the zone is told the guest's address, in a record that
/// lasts five seconds; a name that the zone has not does not exist; while the
/// address is not known the question fails; and what is not in the zone is asked
/// of the host.
pub proof fn what_the_zone_answers(
    id: u16,
    q: crate::dns::QuestionView,
    guest: Option<[u8; 4]>,
    names: Seq<Seq<char>>,
    zone: Seq<char>,
    r: Answer,
)
    requires
        answered(id, q, guest, names, zone, r),
        crate::dns::fits_the_wire(q.name),
    ensures
        r is Resolve <==> !in_zone(asked_name(q), zone),
        r matches Answer::Resolve(n) ==> n@ == asked_name(q),
        r matches Answer::Packet(p) ==> crate::dns::read16(p@, 0) == id,
        r matches Answer::Packet(p) ==> crate::dns::read16(p@, 2) == (if guest is None {
            0x8182int
        } else if !zone_has(asked_name(q), zone, names) {
            0x8183
        } else {
            0x8180
        }),
        r matches Answer::Packet(p) ==> guest matches Some(ip) ==> zone_has(
            asked_name(q),
            zone,
            names,
        ) && q.qtype == 1 ==> crate::dns::answers_in(p@) == Some(
            seq![crate::dns::Record { owner: q.name, kind: 1, class: 1, ttl: 5, data: ip@ }],
        ),
        r matches Answer::Packet(p) ==> q.qtype != 1 ==> crate::dns::answers_in(p@) == Some(
            Seq::<crate::dns::Record>::empty(),
        ),
{
    if guest is Some {
        let ip = guest->0;
        let ips = seq![crate::dns::IpAddr::V4(ip)];
        reveal_with_fuel(crate::dns::asked_for, 2);
        assert(ips.drop_last() =~= Seq::<crate::dns::IpAddr>::empty());
        let data = crate::dns::asked_for(q.qtype, ips);
        crate::dns::a_response_says_the_addresses(id, q, ips, 5);
        let records = data.map_values(
            |data: Seq<u8>|
                crate::dns::Record {
                    owner: q.name,
                    kind: q.qtype as int,
                    class: 1,
                    ttl: 5u32 as int,
                    data,
                },
        );
        if q.qtype == 1 {
            assert(data =~= seq![ip@]);
            assert(records =~= seq![
                crate::dns::Record { owner: q.name, kind: 1, class: 1, ttl: 5, data: ip@ },
            ]);
        } else {
            assert(data =~= Seq::<Seq<u8>>::empty());
            assert(records =~= Seq::<crate::dns::Record>::empty());
        }
    }
    crate::dns::a_failure_says_so(id, q, false);
    crate::dns::a_failure_says_so(id, q, true);
}

} // verus!

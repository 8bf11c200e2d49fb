//! Memory figures of guest and host: what the balloon controller is fed, what
//! the host charges for a VM, and what the host has left.

use crate::balloon::Sample;
use crate::config::{first_kib, proc_kib};
use crate::double::{unwrap_or_zero, Double};
use crate::proto::MemStats;
use crate::text::{
    contains, find_from, lines, owned, parse_u64, strip_prefix, to_chars, trim, words,
};
use vstd::prelude::*;

verus! {

/// What the balloon controller sees of the guest's memory.
pub fn balloon_sample(m: &MemStats) -> (s: Sample)
    ensures
        s.total_mib == m.total_kib / 1024,
        s.available_mib == m.available_kib / 1024,
        s.psi_some_avg10 == m.psi_some_avg10,
{
    Sample {
        total_mib: m.total_kib / 1024,
        available_mib: m.available_kib / 1024,
        psi_some_avg10: m.psi_some_avg10,
    }
}

/// The resident memory that a process's status gives, in MiB; none is zero.
pub open spec fn rss_of(status: Seq<char>) -> nat {
    match first_kib(crate::text::lines_of(status), "VmRSS:"@) {
        Some(k) => k / 1024,
        None => 0,
    }
}

pub fn rss_mib(status: &str) -> (n: u64)
    ensures
        n == rss_of(status@),
{
    match proc_kib(status, "VmRSS:") {
        Some(k) => k / 1024,
        None => 0,
    }
}

/// A process: its command line and its status.
#[derive(Debug)]
pub struct Process {
    pub cmdline: String,
    pub status: String,
}

/// What the workers among the processes hold.
pub open spec fn workers_mib(ps: Seq<Process>) -> nat
    decreases ps.len(),
{
    if ps.len() == 0 {
        0
    } else {
        workers_mib(ps.drop_last()) + (if crate::text::has_part(
            ps.last().cmdline@,
            "krun-worker"@,
        ) {
            rss_of(ps.last().status@)
        } else {
            0
        })
    }
}

pub open spec fn at_most_u64(n: nat) -> u64 {
    if n > u64::MAX {
        u64::MAX
    } else {
        n as u64
    }
}

/// What the host charges for its VMs: the workers are the VMs, so the daemon's
/// own memory and theirs is the whole story.
pub fn host_footprint_mib(own_status: &str, ps: &Vec<Process>) -> (n: u64)
    ensures
        n == at_most_u64(rss_of(own_status@) + workers_mib(ps@)),
{
    let own: u64 = rss_mib(own_status);
    let mut total: u64 = own;
    let mut i: usize = 0;
    assert(ps@.take(0) =~= Seq::empty());
    while i < ps.len()
        invariant
            i <= ps@.len(),
            total == at_most_u64(rss_of(own_status@) + workers_mib(ps@.take(i as int))),
        decreases ps@.len() - i,
    {
        proof {
            let longer = ps@.take(i as int + 1);
            assert(longer.drop_last() =~= ps@.take(i as int));
            assert(longer.last() == ps@[i as int]);
        }
        if contains(ps[i].cmdline.as_str(), "krun-worker") {
            let more: u64 = rss_mib(ps[i].status.as_str());
            total = if more > u64::MAX - total {
                u64::MAX
            } else {
                total + more
            };
        }
        i = i + 1;
    }
    assert(ps@.take(ps@.len() as int) =~= ps@);
    total
}

/// A process of a macOS host: the path of its program and the bytes that the
/// host charges for it, none where the host would not say.
#[derive(Debug)]
pub struct MacProcess {
    pub path: String,
    pub footprint: Option<u64>,
}

pub open spec fn footprint_mib_of(bytes: Option<u64>) -> nat {
    match bytes {
        Some(b) => (b / 1048576) as nat,
        None => 0,
    }
}

pub fn footprint_of(bytes: Option<u64>) -> (n: u64)
    ensures
        n == footprint_mib_of(bytes),
{
    match bytes {
        Some(b) => b / 1048576,
        None => 0,
    }
}

/// What the framework's own processes hold: each of its guests runs in one.
pub open spec fn guests_mib(ps: Seq<MacProcess>) -> nat
    decreases ps.len(),
{
    if ps.len() == 0 {
        0
    } else {
        guests_mib(ps.drop_last()) + (if crate::text::has_part(
            ps.last().path@,
            "Virtualization.VirtualMachine"@,
        ) {
            footprint_mib_of(ps.last().footprint)
        } else {
            0
        })
    }
}

/// What a macOS host charges for its VMs: the daemon's own footprint and that
/// of the processes that the framework runs its guests in.
pub fn vm_xpc_footprint_mib(own: Option<u64>, ps: &Vec<MacProcess>) -> (n: u64)
    ensures
        n == at_most_u64(footprint_mib_of(own) + guests_mib(ps@)),
{
    let mut total: u64 = footprint_of(own);
    let mut i: usize = 0;
    assert(ps@.take(0) =~= Seq::empty());
    while i < ps.len()
        invariant
            i <= ps@.len(),
            total == at_most_u64(footprint_mib_of(own) + guests_mib(ps@.take(i as int))),
        decreases ps@.len() - i,
    {
        proof {
            let longer = ps@.take(i as int + 1);
            assert(longer.drop_last() =~= ps@.take(i as int));
            assert(longer.last() == ps@[i as int]);
        }
        if contains(ps[i].path.as_str(), "Virtualization.VirtualMachine") {
            let more: u64 = footprint_of(ps[i].footprint);
            total = if more > u64::MAX - total {
                u64::MAX
            } else {
                total + more
            };
        }
        i = i + 1;
    }
    assert(ps@.take(ps@.len() as int) =~= ps@);
    total
}

/// Guest memory as the stats API reports it. Pressure is a percentage.
#[derive(Debug, Clone, Copy, PartialEq, Eq, Structural)]
pub struct GuestMem {
    pub total_kib: u64,
    pub available_kib: u64,
    pub psi_some_avg10: Option<Double>,
    pub psi_full_avg10: Option<Double>,
}

/// The stats of an engine.
#[derive(Debug, Clone, Copy, PartialEq, Eq, Structural)]
pub struct Stats {
    pub balloon_target_mib: u64,
    pub max_mib: u64,
    pub host_footprint_mib: u64,
    pub guest: Option<GuestMem>,
}

pub open spec fn less(a: int, b: int) -> int {
    if a > b {
        a - b
    } else {
        0
    }
}

impl Stats {
    /// MiB that the balloon holds back from the guest.
    pub fn held_mib(&self) -> (n: u64)
        ensures
            n == less(self.max_mib as int, self.balloon_target_mib as int),
    {
        if self.max_mib > self.balloon_target_mib {
            self.max_mib - self.balloon_target_mib
        } else {
            0
        }
    }

    pub fn guest_used_mib(&self) -> (n: u64)
        ensures
            n == (match self.guest {
                Some(g) => less(g.total_kib as int, g.available_kib as int) / 1024,
                None => 0,
            }),
    {
        match self.guest {
            Some(g) => {
                let used: u64 = if g.total_kib > g.available_kib {
                    g.total_kib - g.available_kib
                } else {
                    0
                };
                used / 1024
            },
            None => 0,
        }
    }

    pub fn guest_avail_mib(&self) -> (n: u64)
        ensures
            n == (match self.guest {
                Some(g) => g.available_kib / 1024,
                None => 0,
            }),
    {
        match self.guest {
            Some(g) => g.available_kib / 1024,
            None => 0,
        }
    }

    /// Memory pressure, a percentage.
    pub fn psi_some(&self) -> (d: Double)
        ensures
            d == (match self.guest {
                Some(g) => crate::double::or_zero(g.psi_some_avg10),
                None => Double { bits: 0 },
            }),
    {
        match self.guest {
            Some(g) => unwrap_or_zero(g.psi_some_avg10),
            None => Double { bits: 0 },
        }
    }

    /// Memory pressure on everything, a percentage.
    pub fn psi_full(&self) -> (d: Double)
        ensures
            d == (match self.guest {
                Some(g) => crate::double::or_zero(g.psi_full_avg10),
                None => Double { bits: 0 },
            }),
    {
        match self.guest {
            Some(g) => unwrap_or_zero(g.psi_full_avg10),
            None => Double { bits: 0 },
        }
    }
}

/// A figure of `/proc/meminfo`, in MiB.
pub fn meminfo_mib(meminfo: &str, key: &str) -> (r: Option<u64>)
    ensures
        match r {
            Some(n) => first_kib(crate::text::lines_of(meminfo@), key@) is Some && n == first_kib(
                crate::text::lines_of(meminfo@),
                key@,
            )->0 / 1024,
            None => first_kib(crate::text::lines_of(meminfo@), key@) is None,
        },
{
    match proc_kib(meminfo, key) {
        Some(k) => Some(k / 1024),
        None => None,
    }
}

/// A number that a command printed, scaled down.
pub fn printed_mib(text: &str, per_mib: u64) -> (r: Option<u64>)
    requires
        per_mib > 0,
    ensures
        match r {
            Some(n) => crate::text::parse_dec(crate::text::trimmed(text@), u64::MAX as nat) is Some
                && n == crate::text::parse_dec(
                crate::text::trimmed(text@),
                u64::MAX as nat,
            )->0 / per_mib as nat,
            None => crate::text::parse_dec(
                crate::text::trimmed(text@),
                u64::MAX as nat,
            ) is None,
        },
{
    let t: String = trim(text);
    match parse_u64(t.as_str()) {
        Some(n) => Some(n / per_mib),
        None => None,
    }
}

/// Where a text first occurs at or after a position.
pub open spec fn text_at(s: Seq<char>, t: Seq<char>, from: int) -> Option<int>
    decreases s.len() - from,
{
    if from < 0 || from + t.len() > s.len() {
        None
    } else if crate::text::occurs_at(s, t, from) {
        Some(from)
    } else if from >= s.len() {
        None
    } else {
        text_at(s, t, from + 1)
    }
}

proof fn lemma_text_at(s: Seq<char>, t: Seq<char>, from: int, i: int)
    requires
        0 <= from <= i,
        i + t.len() <= s.len(),
        crate::text::occurs_at(s, t, i),
        forall|j: int| from <= j < i ==> !#[trigger] crate::text::occurs_at(s, t, j),
    ensures
        text_at(s, t, from) == Some(i),
    decreases i - from,
{
    if from < i {
        assert(!crate::text::occurs_at(s, t, from));
        lemma_text_at(s, t, from + 1, i);
    }
}

proof fn lemma_text_nowhere(s: Seq<char>, t: Seq<char>, from: int)
    requires
        0 <= from,
        forall|j: int| from <= j ==> !#[trigger] crate::text::occurs_at(s, t, j),
    ensures
        text_at(s, t, from) is None,
    decreases s.len() - from,
{
    if from + t.len() <= s.len() {
        assert(!crate::text::occurs_at(s, t, from));
        if from < s.len() {
            lemma_text_nowhere(s, t, from + 1);
        }
    }
}

/// What stands between the first and the second occurrence of a text, or
/// behind the first where there is no second.
pub open spec fn between(s: Seq<char>, t: Seq<char>) -> Option<Seq<char>> {
    match text_at(s, t, 0) {
        Some(i) => {
            let rest = s.skip(i + t.len());
            Some(
                match text_at(rest, t, 0) {
                    Some(k) => rest.take(k),
                    None => rest,
                },
            )
        },
        None => None,
    }
}

pub(crate) fn text_between(s: &str, t: &str) -> (r: Option<String>)
    ensures
        crate::text::opt_view(r) == between(s@, t@),
{
    let v: Vec<char> = to_chars(s);
    let p: Vec<char> = to_chars(t);
    let n: usize = v.len();
    match find_from(&v, &p, 0) {
        None => {
            proof {
                lemma_text_nowhere(s@, t@, 0);
            }
            None
        },
        Some(i) => {
            proof {
                lemma_text_at(s@, t@, 0, i as int);
            }
            let rest: String = crate::text::from_chars(&v, i + p.len(), n);
            assert(rest@ =~= s@.skip(i + t@.len()));
            let w: Vec<char> = to_chars(rest.as_str());
            match find_from(&w, &p, 0) {
                None => {
                    proof {
                        lemma_text_nowhere(rest@, t@, 0);
                    }
                    Some(rest)
                },
                Some(k) => {
                    proof {
                        lemma_text_at(rest@, t@, 0, k as int);
                    }
                    let head: String = crate::text::from_chars(&w, 0, k);
                    assert(head@ =~= rest@.take(k as int));
                    Some(head)
                },
            }
        },
    }
}

/// The page size that the first line of `vm_stat` names.
pub open spec fn page_size_of(ls: Seq<Seq<char>>) -> Option<nat> {
    if ls.len() == 0 {
        None
    } else {
        match between(ls[0], "page size of "@) {
            Some(rest) => {
                let ws = crate::text::words_of(rest);
                if ws.len() == 0 {
                    None
                } else {
                    crate::text::parse_dec(ws[0], u64::MAX as nat)
                }
            },
            None => None,
        }
    }
}

/// The pages that a line of `vm_stat` counts under a key.
pub open spec fn pages_of(line: Seq<char>, key: Seq<char>) -> nat {
    match crate::text::after_prefix(line, key) {
        Some(v) => match crate::text::parse_dec(
            crate::net::without_dots(crate::text::trimmed(v)),
            u64::MAX as nat,
        ) {
            Some(n) => n,
            None => 0,
        },
        None => 0,
    }
}

/// The pages that can be had, by a line: free, inactive, speculative and
/// purgeable ones.
pub open spec fn reclaimable(line: Seq<char>) -> nat {
    pages_of(line, "Pages free:"@) + pages_of(line, "Pages inactive:"@) + pages_of(
        line,
        "Pages speculative:"@,
    ) + pages_of(line, "Pages purgeable:"@)
}

pub open spec fn reclaimable_pages(ls: Seq<Seq<char>>) -> nat
    decreases ls.len(),
{
    if ls.len() == 0 {
        0
    } else {
        reclaimable_pages(ls.drop_last()) + reclaimable(ls.last())
    }
}

/// The memory that `vm_stat` says can be had, in MiB.
pub open spec fn vm_stat_mib(text: Seq<char>) -> Option<nat> {
    let ls = crate::text::lines_of(text);
    match page_size_of(ls) {
        Some(size) => Some(reclaimable_pages(ls) * size / 1048576),
        None => None,
    }
}

fn count_pages(line: &str, key: &str) -> (n: u64)
    ensures
        n == pages_of(line@, key@),
{
    match strip_prefix(line, key) {
        Some(v) => {
            let t: String = trim(v.as_str());
            let digits: String = crate::net::strip_dots(t.as_str());
            match parse_u64(digits.as_str()) {
                Some(n) => n,
                None => 0,
            }
        },
        None => 0,
    }
}

fn read_page_size(line: &str) -> (r: Option<u64>)
    ensures
        match r {
            Some(n) => page_size_of(seq![line@]) == Some(n as nat),
            None => page_size_of(seq![line@]) is None,
        },
{
    match text_between(line, "page size of ") {
        Some(rest) => {
            let ws: Vec<String> = words(rest.as_str());
            let ghost wv = crate::text::views(ws@);
            if ws.len() == 0 {
                return None;
            }
            assert(wv[0] == ws@[0]@);
            parse_u64(ws[0].as_str())
        },
        None => None,
    }
}

fn sum_pages(ls: &Vec<String>) -> (n: u64)
    ensures
        n == at_most_u64(reclaimable_pages(crate::text::views(ls@))),
{
    let ghost lv = crate::text::views(ls@);
    let mut pages: u64 = 0;
    let mut i: usize = 0;
    assert(lv.take(0) =~= Seq::empty());
    while i < ls.len()
        invariant
            i <= ls@.len(),
            lv == crate::text::views(ls@),
            pages == at_most_u64(reclaimable_pages(lv.take(i as int))),
        decreases ls@.len() - i,
    {
        proof {
            let longer = lv.take(i as int + 1);
            assert(longer.drop_last() =~= lv.take(i as int));
            assert(longer.last() == ls@[i as int]@);
        }
        let a: u64 = count_pages(ls[i].as_str(), "Pages free:");
        let b: u64 = count_pages(ls[i].as_str(), "Pages inactive:");
        let c: u64 = count_pages(ls[i].as_str(), "Pages speculative:");
        let d: u64 = count_pages(ls[i].as_str(), "Pages purgeable:");
        let sum: u128 = pages as u128 + a as u128 + b as u128 + c as u128 + d as u128;
        pages = if sum > 0xffff_ffff_ffff_ffff {
            u64::MAX
        } else {
            sum as u64
        };
        i = i + 1;
    }
    assert(lv.take(ls@.len() as int) =~= lv);
    pages
}

/// Whether the figures are ones that no host has.
pub open spec fn absurd(text: Seq<char>) -> bool {
    let ls = crate::text::lines_of(text);
    page_size_of(ls) is Some && (reclaimable_pages(ls) >= u64::MAX || reclaimable_pages(ls)
        * page_size_of(ls)->0 > u64::MAX)
}

/// Read what `vm_stat` says can be had, in MiB. Absurd figures are no answer.
pub fn vm_stat_free_mib(text: &str) -> (r: Option<u64>)
    ensures
        match r {
            Some(n) => !absurd(text@) && vm_stat_mib(text@) == Some(n as nat),
            None => absurd(text@) || vm_stat_mib(text@) is None,
        },
{
    let ls: Vec<String> = lines(text);
    let ghost lv = crate::text::views(ls@);
    if ls.len() == 0 {
        return None;
    }
    assert(lv[0] == ls@[0]@);
    let size: u64 = match read_page_size(ls[0].as_str()) {
        Some(n) => n,
        None => {
            return None;
        },
    };
    let pages: u64 = sum_pages(&ls);
    if pages == u64::MAX {
        return None;
    }
    proof {
        assert(pages * size <= 0xffff_ffff_ffff_ffff * 0xffff_ffff_ffff_ffff) by (nonlinear_arith)
            requires
                pages <= 0xffff_ffff_ffff_ffff,
                size <= 0xffff_ffff_ffff_ffff,
        ;
    }
    let bytes: u128 = (pages as u128) * (size as u128);
    if bytes > 0xffff_ffff_ffff_ffff {
        return None;
    }
    Some((bytes / 1048576) as u64)
}

/// A family of hosts.
#[derive(Debug, Clone, Copy, PartialEq, Eq, Structural)]
pub enum HostOs {
    Macos,
    Linux,
    Windows,
}

/// The host's memory that can be had, in MiB: from what `vm_stat` says, from
/// `/proc/meminfo`, or from a number of kibibytes.
pub fn host_free_mib(os: HostOs, text: &str) -> (r: Option<u64>)
    ensures
        match (os, r) {
            (HostOs::Macos, Some(n)) => !absurd(text@) && vm_stat_mib(text@) == Some(n as nat),
            (HostOs::Macos, None) => absurd(text@) || vm_stat_mib(text@) is None,
            (HostOs::Linux, Some(n)) => first_kib(
                crate::text::lines_of(text@),
                "MemAvailable:"@,
            ) matches Some(k) && n == k / 1024,
            (HostOs::Linux, None) => first_kib(
                crate::text::lines_of(text@),
                "MemAvailable:"@,
            ) is None,
            (HostOs::Windows, Some(n)) => crate::text::parse_dec(
                crate::text::trimmed(text@),
                u64::MAX as nat,
            ) matches Some(k) && n == k / 1024,
            (HostOs::Windows, None) => crate::text::parse_dec(
                crate::text::trimmed(text@),
                u64::MAX as nat,
            ) is None,
        },
{
    match os {
        HostOs::Macos => vm_stat_free_mib(text),
        HostOs::Linux => meminfo_mib(text, "MemAvailable:"),
        HostOs::Windows => printed_mib(text, 1024),
    }
}

/// All of the host's memory, in MiB: from a number of bytes, from
/// `/proc/meminfo`, or from a number of kibibytes.
pub fn host_total_mib(os: HostOs, text: &str) -> (r: Option<u64>)
    ensures
        ({
            let printed = crate::text::parse_dec(crate::text::trimmed(text@), u64::MAX as nat);
            let kib = first_kib(crate::text::lines_of(text@), "MemTotal:"@);
            match (os, r) {
                (HostOs::Macos, Some(n)) => printed matches Some(k) && n == k / 1048576,
                (HostOs::Macos, None) => printed is None,
                (HostOs::Linux, Some(n)) => kib matches Some(k) && n == k / 1024,
                (HostOs::Linux, None) => kib is None,
                (HostOs::Windows, Some(n)) => printed matches Some(k) && n == k / 1024,
                (HostOs::Windows, None) => printed is None,
            }
        }),
{
    match os {
        HostOs::Macos => printed_mib(text, 1048576),
        HostOs::Linux => meminfo_mib(text, "MemTotal:"),
        HostOs::Windows => printed_mib(text, 1024),
    }
}

/// What the balloon's control loop shows of itself.
#[derive(Debug, Clone, Copy, PartialEq, Eq, Structural)]
pub struct BalloonState {
    /// What the guest may keep, in MiB.
    pub target_mib: u64,
    pub max_mib: u64,
}

impl BalloonState {
    /// Before the first target the guest has everything.
    pub fn start(max_mib: u64) -> (s: BalloonState)
        ensures
            s == (BalloonState { target_mib: max_mib, max_mib }),
    {
        BalloonState { target_mib: max_mib, max_mib }
    }

    /// A target was tried; it counts where the VM took it.
    pub fn tried(&mut self, target: u64, taken: bool)
        ensures
            final(self).max_mib == old(self).max_mib,
            final(self).target_mib == (if taken {
                target
            } else {
                old(self).target_mib
            }),
    {
        if taken {
            self.target_mib = target;
        }
    }
}

/// What a host is charged is the memory of every worker, and of nothing else.
pub proof fn every_worker_counts(ps: Seq<Process>, p: Process)
    ensures
        crate::text::has_part(p.cmdline@, "krun-worker"@) ==> workers_mib(ps.push(p))
            == workers_mib(ps) + rss_of(p.status@),
        !crate::text::has_part(p.cmdline@, "krun-worker"@) ==> workers_mib(ps.push(p))
            == workers_mib(ps),
        workers_mib(Seq::empty()) == 0,
{
    assert(ps.push(p).drop_last() =~= ps);
}

/// On macOS it is the memory of every process that the framework runs a guest
/// in.
pub proof fn every_guest_counts(ps: Seq<MacProcess>, p: MacProcess)
    ensures
        crate::text::has_part(p.path@, "Virtualization.VirtualMachine"@) ==> guests_mib(ps.push(p))
            == guests_mib(ps) + (match p.footprint {
            Some(b) => (b / 1048576) as nat,
            None => 0,
        }),
        !crate::text::has_part(p.path@, "Virtualization.VirtualMachine"@) ==> guests_mib(
            ps.push(p),
        ) == guests_mib(ps),
        guests_mib(Seq::empty()) == 0,
{
    assert(ps.push(p).drop_last() =~= ps);
}

/// A line of `vm_stat` counts the pages behind its key, up to the dot.
pub proof fn pages_are_read(key: Seq<char>, n: u64)
    ensures
        pages_of(key + crate::text::decimal(n as nat).push('.'), key) == n,
        pages_of(key + seq![' '] + crate::text::decimal(n as nat).push('.'), key) == n,
{
    let d = crate::text::decimal(n as nat);
    let v = d.push('.');
    crate::text::decimal_reads_back(n as nat);
    assert(crate::text::parse_dec(d, u64::MAX as nat) == Some(n as nat));
    assert(crate::text::is_digit(d[0]));
    assert(crate::text::is_digit(d.last()));
    crate::text::what_is_behind_a_prefix(key + v, key, v);
    assert(key + seq![' '] + v =~= key + (seq![' '] + v));
    crate::text::what_is_behind_a_prefix(key + (seq![' '] + v), key, seq![' '] + v);
    crate::text::blanks_are_trimmed(v, ' ');
    assert(v[0] == d[0]);
    assert(crate::text::trimmed(v) == v);
    reveal_with_fuel(crate::net::without_dots, 2);
    assert(v.drop_last() =~= d);
}

} // verus!

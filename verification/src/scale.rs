//! Scale sweeps: what is started, what counts as a break, and when a point is
//! over. The first condition that trips is the recorded failure mode.

use crate::doc::{get, text_field, Doc, DocView};
use crate::text::{
    cat2, cat3, cat4, cat5, decimal_str, owned, parse_u64, same, strip_prefix, to_chars, trim,
};
use vstd::prelude::*;

verus! {

/// Stop sweeps before wedging the host.
pub const HOST_FREE_FLOOR_MIB: u64 = 4096;

/// What broke.
#[derive(Debug)]
pub enum Brk {
    /// Engine-level command failure (create or start refused or errored).
    CmdError { detail: String },
    /// A call exceeded its hard timeout.
    Timeout { detail: String },
    /// The guest's OOM killer fired during the phase.
    GuestOom { new_kills: u64 },
    /// Status API or guest exec stopped answering.
    AgentUnhealthy { detail: String },
    /// Start latency blew past ten times the early batches' median.
    LatencyBlowup { median_ms: u128, baseline_ms: u128 },
    /// Host reclaimable RAM under the safety floor.
    HostLow { free_mib: u64 },
    /// The configured ceiling, reached without breaking.
    MaxN { n: usize },
}

pub enum BrkView {
    CmdError(Seq<char>),
    Timeout(Seq<char>),
    GuestOom(u64),
    AgentUnhealthy(Seq<char>),
    LatencyBlowup(u128, u128),
    HostLow(u64),
    MaxN(usize),
}

impl View for Brk {
    type V = BrkView;

    open spec fn view(&self) -> BrkView {
        match self {
            Brk::CmdError { detail } => BrkView::CmdError(detail@),
            Brk::Timeout { detail } => BrkView::Timeout(detail@),
            Brk::GuestOom { new_kills } => BrkView::GuestOom(*new_kills),
            Brk::AgentUnhealthy { detail } => BrkView::AgentUnhealthy(detail@),
            Brk::LatencyBlowup { median_ms, baseline_ms } => BrkView::LatencyBlowup(
                *median_ms,
                *baseline_ms,
            ),
            Brk::HostLow { free_mib } => BrkView::HostLow(*free_mib),
            Brk::MaxN { n } => BrkView::MaxN(*n),
        }
    }
}

pub open spec fn brk_view(b: Option<Brk>) -> Option<BrkView> {
    match b {
        Some(x) => Some(x@),
        None => None,
    }
}

/// A number of milliseconds of any size, in decimal notation.
fn wide_str(n: u128) -> (s: String)
    ensures
        s@ == crate::text::decimal(n as nat),
    decreases n,
{
    if n <= 0xffff_ffff_ffff_ffff {
        decimal_str(n as u64)
    } else {
        let head: String = wide_str(n / 10);
        let d: String = decimal_str((n % 10) as u64);
        let s: String = cat2(head.as_str(), d.as_str());
        assert(s@ =~= crate::text::decimal(n as nat / 10).push(
            crate::text::digit(n as nat % 10),
        ));
        s
    }
}

impl BrkView {
    pub open spec fn text(self) -> Seq<char> {
        match self {
            BrkView::CmdError(d) => "cmd_error: "@ + d,
            BrkView::Timeout(d) => "timeout: "@ + d,
            BrkView::GuestOom(n) => "guest_oom: "@ + crate::text::decimal(n as nat) + " new kills"@,
            BrkView::AgentUnhealthy(d) => "agent_unhealthy: "@ + d,
            BrkView::LatencyBlowup(m, b) => "latency_blowup: "@ + crate::text::decimal(m as nat)
                + "ms vs baseline "@ + crate::text::decimal(b as nat) + "ms"@,
            BrkView::HostLow(n) => "host_low: "@ + crate::text::decimal(n as nat) + " MiB free"@,
            BrkView::MaxN(n) => "max_n: reached configured cap "@ + crate::text::decimal(n as nat),
        }
    }
}

impl Brk {
    pub fn label(&self) -> (s: String)
        ensures
            s@ == self@.text(),
    {
        match self {
            Brk::CmdError { detail } => cat2("cmd_error: ", detail.as_str()),
            Brk::Timeout { detail } => cat2("timeout: ", detail.as_str()),
            Brk::GuestOom { new_kills } => cat3(
                "guest_oom: ",
                decimal_str(*new_kills).as_str(),
                " new kills",
            ),
            Brk::AgentUnhealthy { detail } => cat2("agent_unhealthy: ", detail.as_str()),
            Brk::LatencyBlowup { median_ms, baseline_ms } => cat5(
                "latency_blowup: ",
                wide_str(*median_ms).as_str(),
                "ms vs baseline ",
                wide_str(*baseline_ms).as_str(),
                "ms",
            ),
            Brk::HostLow { free_mib } => cat3(
                "host_low: ",
                decimal_str(*free_mib).as_str(),
                " MiB free",
            ),
            Brk::MaxN { n } => cat2(
                "max_n: reached configured cap ",
                decimal_str(*n as u64).as_str(),
            ),
        }
    }
}

/// The checks between batches, cheapest first: the host's memory, the guest's
/// OOM killer, the engine's health.
pub open spec fn engine_break(
    host_free: Option<u64>,
    oom_before: u64,
    oom_now: u64,
    healthy: bool,
) -> Option<BrkView> {
    if host_free is Some && host_free->0 < HOST_FREE_FLOOR_MIB {
        Some(BrkView::HostLow(host_free->0))
    } else if oom_now > oom_before {
        Some(BrkView::GuestOom((oom_now - oom_before) as u64))
    } else if !healthy {
        Some(BrkView::AgentUnhealthy("status API or guest exec failed"@))
    } else {
        None
    }
}

pub fn engine_checks(host_free: Option<u64>, oom_before: u64, oom_now: u64, healthy: bool) -> (r:
    Option<Brk>)
    ensures
        brk_view(r) == engine_break(host_free, oom_before, oom_now, healthy),
{
    match host_free {
        Some(free) => {
            if free < HOST_FREE_FLOOR_MIB {
                return Some(Brk::HostLow { free_mib: free });
            }
        },
        None => {},
    }
    if oom_now > oom_before {
        return Some(Brk::GuestOom { new_kills: oom_now - oom_before });
    }
    if !healthy {
        return Some(Brk::AgentUnhealthy { detail: owned("status API or guest exec failed") });
    }
    None
}

/// Whether a status document is that of a healthy engine: a running VM, and an
/// agent that answers.
pub open spec fn status_healthy(d: DocView) -> bool {
    &&& crate::doc::text_of(crate::doc::field(d, "vmState"@)) == Some("Running"@)
    &&& crate::doc::untagged(crate::doc::field(d, "agent"@)) != DocView::Null
}

pub fn is_healthy(status: &Doc) -> (r: bool)
    ensures
        r == status_healthy(status@),
{
    let running: bool = match text_field(status, "vmState") {
        Some(s) => same(s.as_str(), "Running"),
        None => false,
    };
    running && (match get(status, "agent") {
        Some(a) => !crate::doc::is_null(a),
        None => false,
    })
}

/// A count that a command printed; anything else is zero.
pub fn printed_count(text: &str) -> (n: u64)
    ensures
        n == (match crate::text::parse_dec(crate::text::trimmed(text@), u64::MAX as nat) {
            Some(k) => k,
            None => 0,
        }),
{
    let t: String = trim(text);
    match parse_u64(t.as_str()) {
        Some(k) => k,
        None => 0,
    }
}

// --- workloads ------------------------------------------------------------------

/// The image that a workload needs.
pub fn image_for(w: &str) -> (s: &'static str)
    ensures
        s@ == (if w@ == "nginx"@ {
            "nginx:alpine"@
        } else {
            "alpine:3.20"@
        }),
{
    if same(w, "nginx") {
        "nginx:alpine"
    } else {
        "alpine:3.20"
    }
}

pub open spec fn without_m(s: Seq<char>) -> Seq<char>
    decreases s.len(),
{
    if s.len() > 0 && (s.last() == 'm' || s.last() == 'M') {
        without_m(s.drop_last())
    } else {
        s
    }
}

fn strip_m(s: &str) -> (r: String)
    ensures
        r@ == without_m(s@),
{
    let v: Vec<char> = to_chars(s);
    let mut n: usize = v.len();
    assert(s@.take(n as int) =~= s@);
    while n > 0 && (v[n - 1] == 'm' || v[n - 1] == 'M')
        invariant
            v@ == s@,
            n <= v@.len(),
            without_m(s@.take(n as int)) == without_m(s@),
        decreases n,
    {
        proof {
            let cur = s@.take(n as int);
            assert(cur.last() == v@[n - 1]);
            assert(cur.drop_last() =~= s@.take(n - 1));
        }
        n = n - 1;
    }
    assert(n > 0 ==> s@.take(n as int).last() == v@[n - 1]);
    assert(s@.subrange(0, n as int) =~= s@.take(n as int));
    crate::text::from_chars(&v, 0, n)
}

/// How much a hog holds: the number, 256 where there is none.
pub open spec fn hog_mib(spec: Seq<char>) -> nat {
    match crate::text::parse_dec(without_m(spec), u64::MAX as nat) {
        Some(n) => n,
        None => 256,
    }
}

/// What is run in the container of a workload: `idle`, `nginx` or
/// `hog:<MiB>`; anything else is idle. Every tenth web server publishes a
/// port.
pub open spec fn workload_tail(w: Seq<char>, n: int) -> Seq<Seq<char>> {
    let hog = crate::text::after_prefix(w, "hog:"@);
    if w == "idle"@ {
        seq!["alpine:3.20"@, "sleep"@, "infinity"@]
    } else if w == "nginx"@ {
        if n % 10 == 0 {
            seq!["-p"@, "127.0.0.1::80"@, "nginx:alpine"@]
        } else {
            seq!["nginx:alpine"@]
        }
    } else if hog is Some {
        seq![
            "--shm-size="@ + crate::text::decimal(hog_mib(hog->0) + 32) + "m"@,
            "alpine:3.20"@,
            "sh"@,
            "-c"@,
            "dd if=/dev/zero of=/dev/shm/h bs=1M count="@ + crate::text::decimal(hog_mib(hog->0))
                + " status=none && exec sleep infinity"@,
        ]
    } else {
        seq!["alpine:3.20"@, "sleep"@, "infinity"@]
    }
}

/// The arguments that run a container of a workload.
pub open spec fn workload_of(w: Seq<char>, n: int, name: Seq<char>) -> Seq<Seq<char>> {
    seq!["run"@, "-d"@, "--restart"@, "no"@, "--name"@, name] + workload_tail(w, n)
}

/// The arguments of `docker run` for container number `n` of a workload.
pub fn workload_args(w: &str, n: usize, name: &str) -> (r: Vec<String>)
    ensures
        crate::text::views(r@) == workload_of(w@, n as int, name@),
{
    let mut r: Vec<String> = vec![
        owned("run"),
        owned("-d"),
        owned("--restart"),
        owned("no"),
        owned("--name"),
        owned(name),
    ];
    let ghost want = workload_of(w@, n as int, name@);
    if same(w, "idle") {
        r.push(owned("alpine:3.20"));
        r.push(owned("sleep"));
        r.push(owned("infinity"));
        assert(crate::text::views(r@) =~= want);
        return r;
    }
    if same(w, "nginx") {
        if n % 10 == 0 {
            r.push(owned("-p"));
            r.push(owned("127.0.0.1::80"));
        }
        r.push(owned("nginx:alpine"));
        assert(crate::text::views(r@) =~= want);
        return r;
    }
    match strip_prefix(w, "hog:") {
        Some(spec) => {
            let digits: String = strip_m(spec.as_str());
            let mib: u64 = match parse_u64(digits.as_str()) {
                Some(k) => k,
                None => 256,
            };
            r.push(cat3("--shm-size=", wide_str(mib as u128 + 32).as_str(), "m"));
            r.push(owned("alpine:3.20"));
            r.push(owned("sh"));
            r.push(owned("-c"));
            r.push(
                cat3(
                    "dd if=/dev/zero of=/dev/shm/h bs=1M count=",
                    decimal_str(mib).as_str(),
                    " status=none && exec sleep infinity",
                ),
            );
            assert(crate::text::views(r@) =~= want);
        },
        None => {
            r.push(owned("alpine:3.20"));
            r.push(owned("sleep"));
            r.push(owned("infinity"));
            assert(crate::text::views(r@) =~= want);
        },
    }
    r
}

/// The arguments of a hog that touches and holds so much memory for a while.
pub open spec fn hog_of(name: Seq<char>, mib: u64, hold_s: u64) -> Seq<Seq<char>> {
    seq![
        "run"@,
        "--rm"@,
        "--name"@,
        name,
        "--shm-size="@ + crate::text::decimal((mib + 512) as nat) + "m"@,
        "alpine:3.20"@,
        "sh"@,
        "-c"@,
        "dd if=/dev/zero of=/dev/shm/h bs=1M count="@ + crate::text::decimal(mib as nat)
            + " status=none && sleep "@ + crate::text::decimal(hold_s as nat),
    ]
}

pub fn hog_args(name: &str, mib: u64, hold_s: u64) -> (r: Vec<String>)
    ensures
        crate::text::views(r@) == hog_of(name@, mib, hold_s),
{
    let r: Vec<String> = vec![
        owned("run"),
        owned("--rm"),
        owned("--name"),
        owned(name),
        cat3("--shm-size=", wide_str(mib as u128 + 512).as_str(), "m"),
        owned("alpine:3.20"),
        owned("sh"),
        owned("-c"),
        cat4(
            "dd if=/dev/zero of=/dev/shm/h bs=1M count=",
            decimal_str(mib).as_str(),
            " status=none && sleep ",
            decimal_str(hold_s).as_str(),
        ),
    ];
    assert(crate::text::views(r@) =~= hog_of(name@, mib, hold_s));
    r
}

/// The names from `from` on, at most fifty of them.
pub open spec fn chunk_at(names: Seq<Seq<char>>, from: int) -> Seq<Seq<char>> {
    if from + 50 < names.len() {
        names.subrange(from, from + 50)
    } else {
        names.subrange(from, names.len() as int)
    }
}

/// The arguments that remove the names, fifty at a time.
pub open spec fn removals(names: Seq<Seq<char>>, from: int) -> Seq<Seq<Seq<char>>>
    decreases
            if from < names.len() {
                names.len() - from
            } else {
                0
            },
{
    if from < 0 || from >= names.len() {
        Seq::empty()
    } else {
        seq![seq!["rm"@, "-f"@] + chunk_at(names, from)] + removals(names, from + 50)
    }
}

pub open spec fn arg_lists(v: Seq<Vec<String>>) -> Seq<Seq<Seq<char>>> {
    v.map_values(|a: Vec<String>| crate::text::views(a@))
}

fn removal(names: &Vec<String>, from: usize) -> (args: Vec<String>)
    requires
        from < names@.len(),
    ensures
        crate::text::views(args@) == seq!["rm"@, "-f"@] + chunk_at(
            crate::text::views(names@),
            from as int,
        ),
{
    let ghost nv = crate::text::views(names@);
    let n: usize = names.len();
    let to: usize = if n - from > 50 {
        from + 50
    } else {
        n
    };
    let mut args: Vec<String> = vec![owned("rm"), owned("-f")];
    let mut i: usize = from;
    assert(crate::text::views(args@) =~= seq!["rm"@, "-f"@] + nv.subrange(from as int, from as int));
    while i < to
        invariant
            from <= i <= to <= names@.len(),
            nv == crate::text::views(names@),
            crate::text::views(args@) == seq!["rm"@, "-f"@] + nv.subrange(from as int, i as int),
        decreases to - i,
    {
        let ghost now = crate::text::views(args@);
        args.push(owned(names[i].as_str()));
        proof {
            assert(nv[i as int] == names@[i as int]@);
            assert(crate::text::views(args@) =~= now.push(nv[i as int]));
            assert(now.push(nv[i as int]) =~= seq!["rm"@, "-f"@] + nv.subrange(
                from as int,
                i as int + 1,
            ));
        }
        i = i + 1;
    }
    args
}

/// How to remove containers, in chunks that an argument list can hold.
pub fn removal_batches(names: &Vec<String>) -> (r: Vec<Vec<String>>)
    ensures
        arg_lists(r@) == removals(crate::text::views(names@), 0),
{
    let ghost nv = crate::text::views(names@);
    let n: usize = names.len();
    let mut r: Vec<Vec<String>> = Vec::new();
    let mut from: usize = 0;
    assert(arg_lists(r@) + removals(nv, 0) =~= removals(nv, 0));
    while from < n
        invariant
            n == names@.len(),
            nv == crate::text::views(names@),
            arg_lists(r@) + removals(nv, from as int) == removals(nv, 0),
        decreases n - from,
    {
        let ghost now = arg_lists(r@);
        let args: Vec<String> = removal(names, from);
        let ghost av = crate::text::views(args@);
        r.push(args);
        proof {
            assert(arg_lists(r@) =~= now.push(av));
            assert(now + (seq![av] + removals(nv, from + 50)) =~= now.push(av) + removals(
                nv,
                from + 50,
            ));
        }
        if n - from <= 50 {
            proof {
                assert(removals(nv, from + 50) =~= Seq::empty());
                assert(arg_lists(r@) + removals(nv, from + 50) =~= arg_lists(r@));
            }
            return r;
        }
        from = from + 50;
    }
    assert(arg_lists(r@) + removals(nv, from as int) =~= arg_lists(r@));
    r
}

/// The names that the calls remove, in order.
pub open spec fn named_by(calls: Seq<Seq<Seq<char>>>) -> Seq<Seq<char>>
    decreases calls.len(),
{
    if calls.len() == 0 {
        Seq::empty()
    } else {
        calls[0].skip(2) + named_by(calls.skip(1))
    }
}

proof fn lemma_removals(names: Seq<Seq<char>>, from: int)
    requires
        0 <= from,
    ensures
        named_by(removals(names, from)) == (if from < names.len() {
            names.skip(from)
        } else {
            Seq::empty()
        }),
        forall|i: int|
            0 <= i < removals(names, from).len() ==> {
                let call = #[trigger] removals(names, from)[i];
                2 < call.len() <= 52 && call.take(2) == seq!["rm"@, "-f"@]
            },
    decreases
            if from < names.len() {
                names.len() - from
            } else {
                0
            },
{
    if from < names.len() {
        let call = seq!["rm"@, "-f"@] + chunk_at(names, from);
        let rest = removals(names, from + 50);
        let all = removals(names, from);
        lemma_removals(names, from + 50);
        assert(all[0] == call);
        assert(all.skip(1) =~= rest);
        assert(call.skip(2) =~= chunk_at(names, from));
        assert(call.take(2) =~= seq!["rm"@, "-f"@]);
        assert(named_by(all) =~= names.skip(from));
        assert forall|i: int| 0 <= i < all.len() implies {
            let call = #[trigger] all[i];
            2 < call.len() <= 52 && call.take(2) == seq!["rm"@, "-f"@]
        } by {
            if i > 0 {
                assert(all[i] == rest[i - 1]);
            }
        }
    }
}

/// The calls name every container once, in order, and no call names none or
/// more than fifty.
pub proof fn every_name_is_removed_once(names: Seq<Seq<char>>)
    ensures
        named_by(removals(names, 0)) == names,
        forall|i: int|
            0 <= i < removals(names, 0).len() ==> {
                let call = #[trigger] removals(names, 0)[i];
                2 < call.len() <= 52 && call.take(2) == seq!["rm"@, "-f"@]
            },
{
    lemma_removals(names, 0);
    assert(names.skip(0) =~= names);
}

/// Nothing is removed that does not start with the prefix, and everything
/// listed that does is removed.
pub proof fn only_ours_are_removed(listed: Seq<Seq<char>>, prefix: Seq<char>)
    ensures
        forall|n: Seq<char>| #[trigger]
            named_by(removals(crate::util::prefixed(listed, prefix), 0)).contains(n) <==> (
            listed.contains(n) && crate::text::has_prefix(n, prefix)),
{
    let ours = crate::util::prefixed(listed, prefix);
    let pred = |n: Seq<char>| crate::text::has_prefix(n, prefix);
    every_name_is_removed_once(ours);
    assert forall|n: Seq<char>| #[trigger] named_by(removals(ours, 0)).contains(n) implies (
    listed.contains(n) && crate::text::has_prefix(n, prefix)) by {
        listed.lemma_filter_contains_rev(pred, n);
        let i = choose|i: int| 0 <= i < ours.len() && ours[i] == n;
        listed.lemma_filter_pred(pred, i);
    }
    assert forall|n: Seq<char>|
        listed.contains(n) && crate::text::has_prefix(n, prefix) implies #[trigger] named_by(
        removals(ours, 0),
    ).contains(n) by {
        let i = choose|i: int| 0 <= i < listed.len() && listed[i] == n;
        assert(pred(listed[i]));
        listed.lemma_filter_contains(pred, i);
    }
}

// --- medians ------------------------------------------------------------------------

pub open spec fn put(x: u128, s: Seq<u128>) -> Seq<u128>
    decreases s.len(),
{
    if s.len() == 0 {
        seq![x]
    } else if x <= s[0] {
        seq![x] + s
    } else {
        seq![s[0]] + put(x, s.skip(1))
    }
}

/// The numbers in order.
pub open spec fn ascending(s: Seq<u128>) -> Seq<u128>
    decreases s.len(),
{
    if s.len() == 0 {
        Seq::empty()
    } else {
        put(s.last(), ascending(s.drop_last()))
    }
}

/// Twice the median of a row of numbers: the middle one counted twice, or the
/// two in the middle; zero of an empty row.
pub open spec fn twice_median(s: Seq<u128>) -> nat {
    let t = ascending(s);
    let m = s.len() as int / 2;
    if s.len() == 0 {
        0
    } else if s.len() % 2 == 0 {
        (t[m - 1] + t[m]) as nat
    } else {
        (2 * t[m]) as nat
    }
}

fn put_in(list: &mut Vec<u128>, x: u128)
    ensures
        final(list)@ == put(x, old(list)@),
{
    let ghost s = list@;
    let mut i: usize = 0;
    assert(s.skip(0) =~= s);
    assert(s.take(0) + put(x, s.skip(0)) =~= put(x, s));
    while i < list.len() && x > list[i]
        invariant
            i <= list@.len(),
            list@ == old(list)@,
            s == list@,
            s.take(i as int) + put(x, s.skip(i as int)) == put(x, s),
        decreases list@.len() - i,
    {
        proof {
            let rest = s.skip(i as int);
            assert(rest.skip(1) =~= s.skip(i as int + 1));
            assert(s.take(i as int) + (seq![rest[0]] + put(x, rest.skip(1))) =~= s.take(i as int + 1)
                + put(x, rest.skip(1)));
        }
        i = i + 1;
    }
    proof {
        let rest = s.skip(i as int);
        if i < list@.len() {
            assert(rest[0] == s[i as int]);
        } else {
            assert(rest =~= Seq::empty());
            assert(put(x, rest) =~= seq![x] + rest);
        }
        assert(put(x, rest) == seq![x] + rest);
    }
    list.insert(i, x);
    assert(list@ =~= s.take(i as int) + (seq![x] + s.skip(i as int)));
}

proof fn lemma_put_len(x: u128, s: Seq<u128>)
    ensures
        put(x, s).len() == s.len() + 1,
    decreases s.len(),
{
    if s.len() > 0 && x > s[0] {
        lemma_put_len(x, s.skip(1));
    }
}

/// Sorting keeps the numbers and leaves none before a smaller one, so that the
/// median is what stands in the middle.
pub proof fn ascending_sorts(s: Seq<u128>)
    ensures
        ascending(s).len() == s.len(),
        ascending(s).to_multiset() == s.to_multiset(),
        forall|i: int, j: int|
            0 <= i <= j < s.len() ==> #[trigger] ascending(s)[i] <= #[trigger] ascending(s)[j],
    decreases s.len(),
{
    broadcast use vstd::seq_lib::group_to_multiset_ensures;

    if s.len() > 0 {
        ascending_sorts(s.drop_last());
        lemma_put(s.last(), ascending(s.drop_last()));
        assert(s =~= s.drop_last().push(s.last()));
    }
}

proof fn lemma_put(x: u128, s: Seq<u128>)
    requires
        forall|i: int, j: int| 0 <= i <= j < s.len() ==> s[i] <= s[j],
    ensures
        put(x, s).len() == s.len() + 1,
        put(x, s).to_multiset() == s.to_multiset().insert(x),
        forall|i: int, j: int|
            0 <= i <= j < put(x, s).len() ==> #[trigger] put(x, s)[i] <= #[trigger] put(x, s)[j],
        s.len() > 0 ==> put(x, s)[0] == (if x <= s[0] {
            x
        } else {
            s[0]
        }),
        s.len() == 0 ==> put(x, s)[0] == x,
    decreases s.len(),
{
    broadcast use vstd::seq_lib::group_to_multiset_ensures;

    let r = put(x, s);
    if s.len() == 0 {
        assert(r =~= s.push(x));
    } else if x <= s[0] {
        vstd::seq_lib::lemma_multiset_commutative(seq![x], s);
        assert(seq![x].to_multiset() =~= vstd::multiset::Multiset::empty().insert(x)) by {
            assert(seq![x] =~= Seq::<u128>::empty().push(x));
        }
        assert(r.to_multiset() =~= s.to_multiset().insert(x));
        assert forall|i: int, j: int| 0 <= i <= j < r.len() implies #[trigger] r[i]
            <= #[trigger] r[j] by {
            if i > 0 {
                assert(r[i] == s[i - 1] && r[j] == s[j - 1]);
            } else if j > 0 {
                assert(r[j] == s[j - 1]);
                assert(s[0] <= s[j - 1]);
            }
        }
    } else {
        let t = s.skip(1);
        assert forall|i: int, j: int| 0 <= i <= j < t.len() implies t[i] <= t[j] by {
            assert(t[i] == s[i + 1] && t[j] == s[j + 1]);
        }
        lemma_put(x, t);
        let u = put(x, t);
        assert(r == seq![s[0]] + u);
        vstd::seq_lib::lemma_multiset_commutative(seq![s[0]], u);
        vstd::seq_lib::lemma_multiset_commutative(seq![s[0]], t);
        assert(s =~= seq![s[0]] + t);
        assert(r.to_multiset() =~= s.to_multiset().insert(x));
        assert forall|i: int, j: int| 0 <= i <= j < r.len() implies #[trigger] r[i]
            <= #[trigger] r[j] by {
            if i > 0 {
                assert(r[i] == u[i - 1] && r[j] == u[j - 1]);
            } else if j > 0 {
                assert(r[j] == u[j - 1]);
                assert(u[0] <= u[j - 1]);
                if t.len() > 0 {
                    assert(t[0] == s[1]);
                }
                assert(s[0] <= u[0]);
            }
        }
    }
}

proof fn lemma_median_within(s: Seq<u128>, bound: u128)
    requires
        forall|i: int| 0 <= i < s.len() ==> (#[trigger] s[i]) <= bound,
    ensures
        twice_median(s) <= 2 * bound,
        forall|k: int| 0 <= k < s.len() ==> (#[trigger] ascending(s)[k]) <= bound,
{
    broadcast use vstd::seq_lib::group_to_multiset_ensures;

    ascending_sorts(s);
    let t = ascending(s);
    assert forall|k: int| 0 <= k < t.len() implies (#[trigger] t[k]) <= bound by {
        assert(t.contains(t[k]));
        assert(t.to_multiset().count(t[k]) > 0);
        assert(s.contains(t[k]));
    }
}

/// Twice the median of a row of times: doubled so that it is exact.
pub fn median_doubled(xs: &Vec<u128>) -> (n: u128)
    requires
        forall|i: int| 0 <= i < xs@.len() ==> (#[trigger] xs@[i]) <= 0x2_0000_0000_0000_0000_0000,
    ensures
        n == twice_median(xs@),
{
    let mut t: Vec<u128> = Vec::new();
    let mut i: usize = 0;
    assert(xs@.take(0) =~= Seq::empty());
    while i < xs.len()
        invariant
            i <= xs@.len(),
            t@ == ascending(xs@.take(i as int)),
            t@.len() == i,
        decreases xs@.len() - i,
    {
        proof {
            let longer = xs@.take(i as int + 1);
            assert(longer.drop_last() =~= xs@.take(i as int));
            assert(longer.last() == xs@[i as int]);
            lemma_put_len(xs@[i as int], t@);
        }
        put_in(&mut t, xs[i]);
        i = i + 1;
    }
    assert(xs@.take(xs@.len() as int) =~= xs@);
    proof {
        lemma_median_within(xs@, 0x2_0000_0000_0000_0000_0000);
    }
    let n: usize = t.len();
    if n == 0 {
        0
    } else if n % 2 == 0 {
        t[n / 2 - 1] + t[n / 2]
    } else {
        2 * t[n / 2]
    }
}

/// A quotient rounded to the nearest number, to the even one of two.
pub open spec fn rounded(n: nat, unit: nat) -> nat {
    let q = n / unit;
    let r = n % unit;
    if 2 * r > unit || (2 * r == unit && q % 2 == 1) {
        q + 1
    } else {
        q
    }
}

fn round(n: u128, unit: u128) -> (r: u128)
    requires
        n <= 0x8_0000_0000_0000_0000_0000,
        0 < unit <= 0xffff_ffff_ffff_ffff,
    ensures
        r == rounded(n as nat, unit as nat),
{
    let q: u128 = n / unit;
    let rest: u128 = n % unit;
    assert(q <= n) by (nonlinear_arith)
        requires
            q == n / unit,
            unit >= 1,
    ;
    if 2 * rest > unit || (2 * rest == unit && q % 2 == 1) {
        q + 1
    } else {
        q
    }
}

// --- container density ----------------------------------------------------------------

/// What came of starting a container or a vessel.
#[derive(Debug)]
pub enum Launch {
    Up,
    /// It was refused: whether in time, and what was said.
    Refused { timed_out: bool, brief: String },
    /// The command could not be run.
    Error(String),
}

/// A point of the container sweep, while it runs.
#[derive(Debug)]
pub struct Point {
    /// Containers per batch between health checks.
    pub batch: usize,
    /// Hard cap.
    pub max_n: usize,
    /// Containers tried so far.
    pub n: usize,
    /// How many of them failed.
    pub errors: usize,
    /// Tried in this batch, and failed.
    pub tried: usize,
    pub failed: usize,
    /// The latencies of this batch, in nanoseconds.
    pub latencies: Vec<u128>,
    /// The doubled medians of the first three batches.
    pub early: Vec<u128>,
}

/// Whether a batch goes on: it is not full, and the cap is not reached.
pub open spec fn batch_open(p: Point) -> bool {
    p.tried < p.batch && (p.tried == 0 || p.n < p.max_n)
}

/// The counts of a point are in step.
pub open spec fn point_ok(p: Point) -> bool {
    &&& p.tried <= p.n
    &&& p.failed <= p.tried
    &&& p.errors <= p.n
    &&& p.latencies@.len() == p.tried
    &&& p.early@.len() <= 3
    &&& forall|i: int|
        0 <= i < p.latencies@.len() ==> (#[trigger] p.latencies@[i]) <= 0xffff_ffff_ffff_ffff
    &&& forall|i: int|
        0 <= i < p.early@.len() ==> (#[trigger] p.early@[i]) <= 0x2_0000_0000_0000_0000_0000
}

/// Whether a batch took more than ten times as long as the early ones, and
/// more than two seconds: by the doubled median of the batch, and four times
/// the early median.
pub open spec fn blown_up(early: Seq<u128>, doubled: nat) -> bool {
    early.len() >= 3 && 2 * doubled > 10 * twice_median(early) && doubled > 4000000000
}

/// How a point counts a container that was tried.
pub open spec fn launch_counted(was: Point, l: Launch, latency_ns: u64, r: Option<Brk>, now: Point) -> bool {
    &&& point_ok(now)
    &&& now.batch == was.batch
    &&& now.max_n == was.max_n
    &&& now.early == was.early
    &&& now.n == was.n + 1
    &&& now.tried == was.tried + 1
    &&& now.latencies@ == was.latencies@.push(latency_ns as u128)
    &&& now.errors == was.errors + (if l is Refused {
        1int
    } else {
        0
    })
    &&& now.failed == was.failed + (if l is Refused {
        1int
    } else {
        0
    })
    &&& brk_view(r) == (match l {
        Launch::Up => None,
        Launch::Refused { timed_out, brief } => if timed_out {
            Some(
                BrkView::Timeout(
                    "docker run #"@ + crate::text::decimal(now.n as nat),
                ),
            )
        } else if now.failed * 2 >= was.batch {
            Some(
                BrkView::CmdError(
                    crate::text::decimal(now.failed as nat) + "/"@
                        + crate::text::decimal(was.batch as nat)
                        + " of a batch failed; last: "@ + brief@,
                ),
            )
        } else {
            None
        },
        Launch::Error(e) => Some(
            BrkView::CmdError(
                "docker run #"@ + crate::text::decimal(now.n as nat) + ": "@ + e@,
            ),
        ),
    })
}

impl Point {
    pub fn new(batch: usize, max_n: usize) -> (p: Point)
        ensures
            point_ok(p),
            p.batch == batch,
            p.max_n == max_n,
            p.n == 0,
            p.errors == 0,
            p.tried == 0,
            p.failed == 0,
            p.early@.len() == 0,
    {
        Point {
            batch,
            max_n,
            n: 0,
            errors: 0,
            tried: 0,
            failed: 0,
            latencies: Vec::new(),
            early: Vec::new(),
        }
    }

    /// Whether another container of this batch is to be started.
    pub fn goes_on(&self) -> (r: bool)
        ensures
            r == batch_open(*self),
    {
        self.tried < self.batch && (self.tried == 0 || self.n < self.max_n)
    }

    /// Another container was tried. A timeout ends the point; so does a batch
    /// of which half has failed, or a command that could not be run.
    pub fn launched(&mut self, l: Launch, latency_ns: u64) -> (r: Option<Brk>)
        requires
            point_ok(*old(self)),
            batch_open(*old(self)),
            old(self).n < usize::MAX,
            old(self).batch <= usize::MAX / 2,
        ensures
            point_ok(*final(self)),
            launch_counted(*old(self), l, latency_ns, r, *final(self)),
    {
        self.n = self.n + 1;
        self.tried = self.tried + 1;
        self.latencies.push(latency_ns as u128);
        let num: String = decimal_str(self.n as u64);
        match l {
            Launch::Up => None,
            Launch::Refused { timed_out, brief } => {
                self.errors = self.errors + 1;
                self.failed = self.failed + 1;
                if timed_out {
                    return Some(Brk::Timeout { detail: cat2("docker run #", num.as_str()) });
                }
                if self.failed * 2 >= self.batch {
                    return Some(
                        Brk::CmdError {
                            detail: cat5(
                                decimal_str(self.failed as u64).as_str(),
                                "/",
                                decimal_str(self.batch as u64).as_str(),
                                " of a batch failed; last: ",
                                brief.as_str(),
                            ),
                        },
                    );
                }
                None
            },
            Launch::Error(e) => Some(
                Brk::CmdError { detail: cat4("docker run #", num.as_str(), ": ", e.as_str()) },
            ),
        }
    }

    /// Close the batch: the medians of the first three are the baseline. The
    /// doubled median of this one comes back.
    pub fn close_batch(&mut self) -> (doubled: u128)
        requires
            point_ok(*old(self)),
        ensures
            point_ok(*final(self)),
            doubled == twice_median(old(self).latencies@),
            doubled <= 0x2_0000_0000_0000_0000_0000,
            final(self).batch == old(self).batch,
            final(self).max_n == old(self).max_n,
            final(self).n == old(self).n,
            final(self).errors == old(self).errors,
            final(self).tried == 0,
            final(self).failed == 0,
            final(self).early@ == (if old(self).early@.len() < 3 {
                old(self).early@.push(doubled)
            } else {
                old(self).early@
            }),
    {
        let doubled: u128 = median_doubled(&self.latencies);
        proof {
            lemma_median_within(self.latencies@, 0xffff_ffff_ffff_ffff);
        }
        if self.early.len() < 3 {
            self.early.push(doubled);
        }
        self.tried = 0;
        self.failed = 0;
        self.latencies = Vec::new();
        doubled
    }

    /// What ends the point between two batches: the engine's state, the
    /// latency, the cap.
    pub fn between_batches(
        &self,
        doubled: u128,
        host_free: Option<u64>,
        oom_before: u64,
        oom_now: u64,
        healthy: bool,
    ) -> (r: Option<Brk>)
        requires
            point_ok(*self),
            doubled <= 0x2_0000_0000_0000_0000_0000,
        ensures
            brk_view(r) == (if engine_break(host_free, oom_before, oom_now, healthy) is Some {
                engine_break(host_free, oom_before, oom_now, healthy)
            } else if blown_up(self.early@, doubled as nat) {
                Some(
                    BrkView::LatencyBlowup(
                        rounded(doubled as nat, 2000000) as u128,
                        rounded(twice_median(self.early@), 4000000) as u128,
                    ),
                )
            } else if self.n >= self.max_n {
                Some(BrkView::MaxN(self.n))
            } else {
                None
            }),
    {
        match engine_checks(host_free, oom_before, oom_now, healthy) {
            Some(b) => {
                return Some(b);
            },
            None => {},
        }
        let base: u128 = median_doubled(&self.early);
        proof {
            lemma_median_within(self.early@, 0x2_0000_0000_0000_0000_0000);
        }
        if self.early.len() >= 3 && 2 * doubled > 10 * base && doubled > 4000000000 {
            return Some(
                Brk::LatencyBlowup {
                    median_ms: round(doubled, 2000000),
                    baseline_ms: round(base, 4000000),
                },
            );
        }
        if self.n >= self.max_n {
            return Some(Brk::MaxN { n: self.n });
        }
        None
    }
}

// --- vessels ------------------------------------------------------------------------------

/// The arguments that make a vessel of the sweep.
pub open spec fn vessel_new_of(name: Seq<char>, backend: Seq<char>, mem: u64, disk_gib: u64) -> Seq<
    Seq<char>,
> {
    seq![
        "new"@,
        name,
        "--backend"@,
        backend,
        "--mem"@,
        crate::text::decimal(mem as nat),
        "--disk"@,
        crate::text::decimal(disk_gib as nat),
    ]
}

pub fn vessel_new_args(name: &str, backend: &str, mem: u64, disk_gib: u64) -> (r: Vec<String>)
    ensures
        crate::text::views(r@) == vessel_new_of(name@, backend@, mem, disk_gib),
{
    let r: Vec<String> = vec![
        owned("new"),
        owned(name),
        owned("--backend"),
        owned(backend),
        owned("--mem"),
        decimal_str(mem),
        owned("--disk"),
        decimal_str(disk_gib),
    ];
    assert(crate::text::views(r@) =~= vessel_new_of(name@, backend@, mem, disk_gib));
    r
}

/// What ends the vessel sweep once a vessel was made: that it was not, or that
/// it does not answer.
pub fn vessel_launched(name: &str, l: &Launch, exec_ok: bool) -> (r: Option<Brk>)
    ensures
        brk_view(r) == (match *l {
            Launch::Up => if exec_ok {
                None
            } else {
                Some(BrkView::AgentUnhealthy(name@ + " created but exec failed"@))
            },
            Launch::Refused { timed_out, brief } => Some(
                if timed_out {
                    BrkView::Timeout("vessels new "@ + name@)
                } else {
                    BrkView::CmdError("vessels new "@ + name@ + ": "@ + brief@)
                },
            ),
            Launch::Error(e) => Some(BrkView::CmdError("vessels new "@ + name@ + ": "@ + e@)),
        }),
{
    match l {
        Launch::Up => if exec_ok {
            None
        } else {
            Some(Brk::AgentUnhealthy { detail: cat2(name, " created but exec failed") })
        },
        Launch::Refused { timed_out, brief } => Some(
            if *timed_out {
                Brk::Timeout { detail: cat2("vessels new ", name) }
            } else {
                Brk::CmdError { detail: cat4("vessels new ", name, ": ", brief.as_str()) }
            },
        ),
        Launch::Error(e) => Some(
            Brk::CmdError { detail: cat4("vessels new ", name, ": ", e.as_str()) },
        ),
    }
}

/// What ends the sweep before another vessel: the cap, or, every fifth time,
/// the engine's state.
pub fn before_vessel(
    n: usize,
    limit: usize,
    host_free: Option<u64>,
    oom_before: u64,
    oom_now: u64,
    healthy: bool,
) -> (r: Option<Brk>)
    ensures
        brk_view(r) == (if n > 0 && n % 5 == 0 && engine_break(
            host_free,
            oom_before,
            oom_now,
            healthy,
        ) is Some {
            engine_break(host_free, oom_before, oom_now, healthy)
        } else if n >= limit {
            Some(BrkView::MaxN(n))
        } else {
            None
        }),
{
    if n > 0 && n % 5 == 0 {
        match engine_checks(host_free, oom_before, oom_now, healthy) {
            Some(b) => {
                return Some(b);
            },
            None => {},
        }
    }
    if n >= limit {
        return Some(Brk::MaxN { n });
    }
    None
}

/// A run goes on just where the host has memory left, the guest killed nothing
/// and the engine is healthy; else the first of these that does not hold ends
/// it.
pub proof fn when_a_run_goes_on(
    host_free: Option<u64>,
    oom_before: u64,
    oom_now: u64,
    healthy: bool,
)
    ensures
        ({
            let b = engine_break(host_free, oom_before, oom_now, healthy);
            let low = host_free matches Some(free) && free < 4096;
            &&& b is None <==> (!low && oom_now <= oom_before && healthy)
            &&& low ==> b == Some(BrkView::HostLow(host_free->0))
            &&& !low && oom_now > oom_before ==> (b matches Some(BrkView::GuestOom(n)) && n
                + oom_before == oom_now)
            &&& !low && oom_now <= oom_before && !healthy ==> b is Some && b->0 is AgentUnhealthy
        }),
{
}

/// A hog holds as many MiB as it is told to, with or without the unit behind
/// the number, and its container has room for them.
pub proof fn a_hog_holds_what_it_is_told(n: u64, k: int, name: Seq<char>)
    ensures
        hog_mib(crate::text::decimal(n as nat)) == n,
        hog_mib(crate::text::decimal(n as nat).push('m')) == n,
        hog_mib(crate::text::decimal(n as nat).push('M')) == n,
        workload_of("hog:"@ + crate::text::decimal(n as nat), k, name).contains(
            "dd if=/dev/zero of=/dev/shm/h bs=1M count="@ + crate::text::decimal(n as nat)
                + " status=none && exec sleep infinity"@,
        ),
        workload_of("hog:"@ + crate::text::decimal(n as nat), k, name).contains(
            "--shm-size="@ + crate::text::decimal((n + 32) as nat) + "m"@,
        ),
{
    let d = crate::text::decimal(n as nat);
    crate::text::decimal_reads_back(n as nat);
    assert(crate::text::parse_dec(d, u64::MAX as nat) == Some(n as nat));
    assert(crate::text::is_digit(d.last()));
    assert(d.push('m').drop_last() =~= d);
    assert(d.push('M').drop_last() =~= d);
    reveal_with_fuel(without_m, 2);
    reveal_strlit("idle");
    reveal_strlit("nginx");
    reveal_strlit("hog:");
    let w = "hog:"@ + d;
    crate::text::what_is_behind_a_prefix(w, "hog:"@, d);
    assert(w[0] == 'h');
    assert("idle"@[0] == 'i' && "nginx"@[0] == 'n');
    let all = workload_of(w, k, name);
    assert(all[10] == "dd if=/dev/zero of=/dev/shm/h bs=1M count="@ + d
        + " status=none && exec sleep infinity"@);
    assert(all[6] == "--shm-size="@ + crate::text::decimal((n + 32) as nat) + "m"@);
}

/// Every container of a workload runs under its own name, detached, and is not
/// started again; an idle one sleeps, and every tenth web server publishes a
/// port.
pub proof fn how_a_workload_is_run(w: Seq<char>, n: int, name: Seq<char>)
    ensures
        workload_of(w, n, name).take(6) == seq![
            "run"@,
            "-d"@,
            "--restart"@,
            "no"@,
            "--name"@,
            name,
        ],
        workload_of("idle"@, n, name).skip(6) == seq!["alpine:3.20"@, "sleep"@, "infinity"@],
        workload_of("nginx"@, n, name).skip(6) == (if n % 10 == 0 {
            seq!["-p"@, "127.0.0.1::80"@, "nginx:alpine"@]
        } else {
            seq!["nginx:alpine"@]
        }),
{
    reveal_strlit("idle");
    reveal_strlit("nginx");
    assert("idle"@.len() == 4 && "nginx"@.len() == 5);
    assert(workload_of(w, n, name).take(6) =~= seq![
        "run"@,
        "-d"@,
        "--restart"@,
        "no"@,
        "--name"@,
        name,
    ]);
    assert(workload_of("idle"@, n, name).skip(6) =~= workload_tail("idle"@, n));
    assert(workload_of("nginx"@, n, name).skip(6) =~= workload_tail("nginx"@, n));
}

/// Every try counts and is timed, a refused one as an error too. A point ends
/// at once on a timeout or a command that could not be run, and on a refusal
/// where half of the batch has failed; a container that came up never ends it.
pub proof fn when_a_try_ends_a_point(was: Point, l: Launch, latency_ns: u64, r: Option<Brk>, now: Point)
    requires
        launch_counted(was, l, latency_ns, r, now),
    ensures
        now.n == was.n + 1,
        now.latencies@.last() == latency_ns,
        l is Refused ==> now.errors == was.errors + 1 && now.failed == was.failed + 1,
        l is Up ==> r is None && now.errors == was.errors,
        l is Error ==> r is Some && brk_view(r)->0 is CmdError,
        l matches Launch::Refused { timed_out, .. } ==> (r is Some <==> timed_out || 2 * (was.failed
            + 1) >= was.batch) && (timed_out ==> brk_view(r)->0 is Timeout),
{
}

} // verus!

//! Guest clock health, judged from the host's side.
//!
//! How fast the guest clock ran against the host's, how long a one-second
//! sleep took, and how often each timer interrupt fired. Times that the guest
//! prints are kept as it wrote them.

use crate::double::{reads, Double};
use crate::text::{
    contains, ends_with, lines, owned, parse_u64, strip_prefix, to_chars, trim, words,
};
use vstd::prelude::*;

verus! {

/// Late enough that the guest has booted, early enough that a short session
/// still gets a report.
pub const FIRST_SAMPLE_SECS: u64 = 30;

pub const SECOND_SAMPLE_SECS: u64 = 60;

pub const INTERVAL_SECS: u64 = 300;

/// What the guest is asked of its timers, once.
pub const BOOT_SCRIPT: &'static str = r#"
cs=/sys/devices/system/clocksource/clocksource0
echo "clocksource $(cat $cs/current_clocksource 2>/dev/null) (available: $(cat $cs/available_clocksource 2>/dev/null))"
for d in /sys/devices/system/clockevents/clockevent*; do
  echo "clockevent ${d##*/}: $(cat $d/current_device 2>/dev/null)"
done
echo "broadcast: $(cat /sys/devices/system/clockevents/broadcast/current_device 2>/dev/null)"
dmesg 2>/dev/null | grep -iE 'clocksource|tsc|apic timer|calibrat|verification|unstable|hz' | head -n 40
"#;

/// What the guest is asked for a sample.
pub const SAMPLE_SCRIPT: &'static str = r#"
cat /proc/uptime
grep -E '^ *(0|LOC):|arch_timer' /proc/interrupts
a=$(cut -d' ' -f1 /proc/uptime); sleep 1; b=$(cut -d' ' -f1 /proc/uptime)
echo "sleep $a $b"
"#;

/// How long to wait before the next sample. The first window is short, so a
/// brief session still gets a report.
pub fn next_sample_secs(sampled: bool, windows: u32) -> (secs: u64)
    ensures
        secs == (if !sampled {
            FIRST_SAMPLE_SECS
        } else if windows == 0 {
            SECOND_SAMPLE_SECS
        } else {
            INTERVAL_SECS
        }),
{
    if !sampled {
        FIRST_SAMPLE_SECS
    } else if windows == 0 {
        SECOND_SAMPLE_SECS
    } else {
        INTERVAL_SECS
    }
}

/// What a sample of the guest's clock holds.
#[derive(Debug)]
pub struct Sample {
    /// When it was taken, by the host's clock, in nanoseconds.
    pub host_ns: u64,
    /// The guest's uptime in seconds, a number as text.
    pub uptime: String,
    /// IRQ 0 on x86: the PIT. Silent once the local APIC timer has taken over;
    /// busy when the guest could not use it.
    pub pit_irqs: Option<u128>,
    /// Local timer interrupts (x86 `LOC`, arm64 `arch_timer`), all CPUs.
    pub local_irqs: Option<u128>,
    /// When a `sleep 1` began and ended by the guest's own clock, in seconds.
    pub sleep: Option<(String, String)>,
}

pub struct SampleView {
    pub host_ns: u64,
    pub uptime: Seq<char>,
    pub pit_irqs: Option<u128>,
    pub local_irqs: Option<u128>,
    pub sleep: Option<(Seq<char>, Seq<char>)>,
}

impl View for Sample {
    type V = SampleView;

    open spec fn view(&self) -> SampleView {
        SampleView {
            host_ns: self.host_ns,
            uptime: self.uptime@,
            pit_irqs: self.pit_irqs,
            local_irqs: self.local_irqs,
            sleep: match self.sleep {
                Some((a, b)) => Some((a@, b@)),
                None => None,
            },
        }
    }
}

/// The sum of the numbers that open a row of words.
pub open spec fn sum_of(ws: Seq<Seq<char>>) -> nat
    decreases ws.len(),
{
    if ws.len() == 0 {
        0
    } else {
        match crate::text::parse_dec(ws[0], u64::MAX as nat) {
            Some(n) => n + sum_of(ws.skip(1)),
            None => 0,
        }
    }
}

/// The per-CPU counts that open a row of `/proc/interrupts`, summed.
pub open spec fn counts_of(row: Seq<char>) -> nat {
    sum_of(crate::text::words_of(row))
}

pub fn sum_counts(row: &str) -> (n: u128)
    ensures
        n == counts_of(row@),
{
    let ws: Vec<String> = words(row);
    let ghost wv = crate::text::views(ws@);
    let mut n: u128 = 0;
    let mut i: usize = 0;
    assert(wv.skip(0) =~= wv);
    while i < ws.len()
        invariant
            i <= ws@.len(),
            wv == crate::text::views(ws@),
            wv == crate::text::words_of(row@),
            n <= i * 0xffff_ffff_ffff_ffff,
            n + sum_of(wv.skip(i as int)) == sum_of(wv),
        decreases ws@.len() - i,
    {
        proof {
            let cur = wv.skip(i as int);
            assert(cur[0] == ws@[i as int]@);
            assert(cur.skip(1) =~= wv.skip(i as int + 1));
        }
        match parse_u64(ws[i].as_str()) {
            Some(k) => {
                proof {
                    assert(i * 0xffff_ffff_ffff_ffff + k <= 0xffff_ffff_ffff_ffff
                        * 0x1_0000_0000_0000_0000);
                }
                n = n + k as u128;
            },
            None => {
                return n;
            },
        }
        i = i + 1;
    }
    n
}

pub open spec fn at_most_u128(n: nat) -> u128 {
    if n > u128::MAX {
        u128::MAX
    } else {
        n as u128
    }
}

/// A sample after one more line of what the guest printed.
pub open spec fn with_line(s: SampleView, raw: Seq<char>) -> SampleView {
    let line = crate::text::trimmed(raw);
    let sleep = crate::text::after_prefix(line, "sleep "@);
    let pit = crate::text::after_prefix(line, "0:"@);
    let loc = crate::text::after_prefix(line, "LOC:"@);
    if sleep is Some {
        let ws = crate::text::words_of(sleep->0);
        if ws.len() >= 2 && crate::double::is_number(ws[0]) && crate::double::is_number(ws[1]) {
            SampleView { sleep: Some((ws[0], ws[1])), ..s }
        } else {
            s
        }
    } else if pit is Some {
        if crate::text::has_part(line, "timer"@) {
            SampleView { pit_irqs: Some(counts_of(pit->0) as u128), ..s }
        } else {
            s
        }
    } else if loc is Some {
        SampleView { local_irqs: Some(counts_of(loc->0) as u128), ..s }
    } else if crate::text::has_suffix(line, "arch_timer"@) {
        match crate::vessels::first_of(line, ':') {
            Some(i) => SampleView {
                local_irqs: Some(
                    at_most_u128(
                        (match s.local_irqs {
                            Some(n) => n as nat,
                            None => 0,
                        }) + counts_of(line.skip(i + 1)),
                    ),
                ),
                ..s
            },
            None => s,
        }
    } else {
        s
    }
}

pub open spec fn with_lines(s: SampleView, ls: Seq<Seq<char>>) -> SampleView
    decreases ls.len(),
{
    if ls.len() == 0 {
        s
    } else {
        with_line(with_lines(s, ls.drop_last()), ls.last())
    }
}

/// The sample that the guest's output gives: none without an uptime.
pub open spec fn sample_of(host_ns: u64, out: Seq<char>) -> Option<SampleView> {
    let ls = crate::text::lines_of(out);
    if ls.len() == 0 {
        None
    } else {
        let ws = crate::text::words_of(ls[0]);
        if ws.len() == 0 || !crate::double::is_number(ws[0]) {
            None
        } else {
            Some(
                with_lines(
                    SampleView {
                        host_ns,
                        uptime: ws[0],
                        pit_irqs: None,
                        local_irqs: None,
                        sleep: None,
                    },
                    ls.skip(1),
                ),
            )
        }
    }
}

fn sleep_time(rest: &str) -> (r: Option<(String, String)>)
    ensures
        ({
            let ws = crate::text::words_of(rest@);
            match r {
                Some((a, b)) => ws.len() >= 2 && crate::double::is_number(ws[0])
                    && crate::double::is_number(ws[1]) && a@ == ws[0] && b@ == ws[1],
                None => !(ws.len() >= 2 && crate::double::is_number(ws[0])
                    && crate::double::is_number(ws[1])),
            }
        }),
{
    let ws: Vec<String> = words(rest);
    let ghost wv = crate::text::views(ws@);
    if ws.len() < 2 {
        return None;
    }
    assert(wv[0] == ws@[0]@ && wv[1] == ws@[1]@);
    if reads(ws[0].as_str()) && reads(ws[1].as_str()) {
        Some((owned(ws[0].as_str()), owned(ws[1].as_str())))
    } else {
        None
    }
}

fn add_line(s: Sample, raw: &str) -> (r: Sample)
    ensures
        r@ == with_line(s@, raw@),
{
    let line: String = trim(raw);
    match strip_prefix(line.as_str(), "sleep ") {
        Some(rest) => {
            return match sleep_time(rest.as_str()) {
                Some(t) => Sample { sleep: Some(t), ..s },
                None => s,
            };
        },
        None => {},
    }
    match strip_prefix(line.as_str(), "0:") {
        Some(rest) => {
            return if contains(line.as_str(), "timer") {
                Sample { pit_irqs: Some(sum_counts(rest.as_str())), ..s }
            } else {
                s
            };
        },
        None => {},
    }
    match strip_prefix(line.as_str(), "LOC:") {
        Some(rest) => {
            return Sample { local_irqs: Some(sum_counts(rest.as_str())), ..s };
        },
        None => {},
    }
    if ends_with(line.as_str(), "arch_timer") {
        let v: Vec<char> = to_chars(line.as_str());
        match crate::vessels::find_first(&v, ':') {
            Some(i) => {
                let n: usize = v.len();
                let rest: String = crate::text::from_chars(&v, i + 1, n);
                assert(rest@ =~= line@.skip(i + 1));
                let before: u128 = match s.local_irqs {
                    Some(n) => n,
                    None => 0,
                };
                let more: u128 = sum_counts(rest.as_str());
                let total: u128 = if more > u128::MAX - before {
                    u128::MAX
                } else {
                    before + more
                };
                return Sample { local_irqs: Some(total), ..s };
            },
            None => {},
        }
    }
    s
}

impl Sample {
    /// Read what the guest printed.
    pub fn parse(host_ns: u64, out: &str) -> (r: Option<Sample>)
        ensures
            match r {
                Some(s) => sample_of(host_ns, out@) == Some(s@),
                None => sample_of(host_ns, out@) is None,
            },
    {
        let ls: Vec<String> = lines(out);
        let ghost lv = crate::text::views(ls@);
        if ls.len() == 0 {
            return None;
        }
        assert(lv[0] == ls@[0]@);
        let ws: Vec<String> = words(ls[0].as_str());
        let ghost wv = crate::text::views(ws@);
        if ws.len() == 0 {
            return None;
        }
        assert(wv[0] == ws@[0]@);
        if !reads(ws[0].as_str()) {
            return None;
        }
        let first = Sample {
            host_ns,
            uptime: owned(ws[0].as_str()),
            pit_irqs: None,
            local_irqs: None,
            sleep: None,
        };
        Some(read_lines(first, &ls))
    }
}

fn read_lines(first: Sample, ls: &Vec<String>) -> (s: Sample)
    requires
        ls@.len() > 0,
    ensures
        s@ == with_lines(first@, crate::text::views(ls@).skip(1)),
{
    let ghost all = crate::text::views(ls@).skip(1);
    let ghost base = first@;
    let mut s: Sample = first;
    let mut i: usize = 1;
    assert(all.take(0) =~= Seq::empty());
    while i < ls.len()
        invariant
            1 <= i <= ls@.len(),
            all == crate::text::views(ls@).skip(1),
            s@ == with_lines(base, all.take(i - 1)),
        decreases ls@.len() - i,
    {
        proof {
            let longer = all.take(i as int);
            assert(longer.drop_last() =~= all.take(i - 1));
            assert(longer.last() == ls@[i as int]@);
        }
        s = add_line(s, ls[i].as_str());
        i = i + 1;
    }
    assert(all.take(ls@.len() - 1) =~= all);
    s
}

/// What happened between two samples, in double-precision numbers.
#[derive(Debug, Clone, Copy)]
pub struct Window {
    pub host_secs: Double,
    /// Guest seconds per host second; one is right.
    pub rate: Double,
    pub pit_per_sec: Option<Double>,
    pub local_per_sec: Option<Double>,
    /// How long a sleep of a second took.
    pub sleep_ms: Option<Double>,
}

/// The interrupts between two counts; a count that fell back is none.
pub open spec fn counted(x: Option<u128>, y: Option<u128>) -> Option<u128> {
    match (x, y) {
        (Some(x), Some(y)) => Some(
            if y > x {
                (y - x) as u128
            } else {
                0
            },
        ),
        _ => None,
    }
}

/// Count the interrupts between two samples.
pub fn count(x: Option<u128>, y: Option<u128>) -> (r: Option<u128>)
    ensures
        r == counted(x, y),
{
    match (x, y) {
        (Some(x), Some(y)) => Some(
            if y > x {
                y - x
            } else {
                0
            },
        ),
        _ => None,
    }
}

/// The bits of 0.99, 1.01, 20 and 1100.
pub const SLOW: u64 = 0x3fef_ae14_7ae1_47ae;

pub const FAST: u64 = 0x3ff0_28f5_c28f_5c29;

pub const TWENTY: u64 = 0x4034_0000_0000_0000;

pub const LATE_MS: u64 = 0x4091_3000_0000_0000;

/// Whether the guest's clock is more than a hundredth off the host's: of the
/// numbers whose distance from one exceeds that of a hundredth, these are the
/// least above one and the greatest below it.
pub open spec fn off_rate(w: Window) -> bool {
    w.rate.reaches(Double { bits: FAST }) || (Double { bits: SLOW }).reaches(w.rate)
}

/// Whether a sleep of a second took over a second and a tenth.
pub open spec fn late(w: Window) -> bool {
    w.sleep_ms is Some && w.sleep_ms->0.greater(Double { bits: LATE_MS })
}

/// Whether the PIT fired over twenty times a second. Once booted, Linux only
/// leaves it running when it could not use the local APIC timer.
pub open spec fn on_pit(w: Window) -> bool {
    w.pit_per_sec is Some && w.pit_per_sec->0.greater(Double { bits: TWENTY })
}

pub open spec fn problems_of(w: Window) -> Seq<Seq<char>> {
    (if off_rate(w) {
        seq!["guest clock does not keep time with the host"@]
    } else {
        Seq::empty()
    }) + (if late(w) {
        seq!["guest timers fire late"@]
    } else {
        Seq::empty()
    }) + (if on_pit(w) {
        seq!["guest timers run off the emulated PIT"@]
    } else {
        Seq::empty()
    })
}

impl Window {
    /// What is wrong, if anything that a game server would feel.
    pub fn problems(&self) -> (v: Vec<String>)
        ensures
            crate::text::views(v@) == problems_of(*self),
    {
        let mut v: Vec<String> = Vec::new();
        let slow: Double = Double { bits: SLOW };
        if self.rate.at_least(Double { bits: FAST }) || slow.at_least(self.rate) {
            v.push(owned("guest clock does not keep time with the host"));
        }
        match self.sleep_ms {
            Some(t) => {
                if t.exceeds(Double { bits: LATE_MS }) {
                    v.push(owned("guest timers fire late"));
                }
            },
            None => {},
        }
        match self.pit_per_sec {
            Some(hz) => {
                if hz.exceeds(Double { bits: TWENTY }) {
                    v.push(owned("guest timers run off the emulated PIT"));
                }
            },
            None => {},
        }
        assert(crate::text::views(v@) =~= problems_of(*self));
        v
    }
}

/// The counts of a row are added up to the first word that is none.
pub proof fn counts_are_added(n: u64, rest: Seq<Seq<char>>, w: Seq<char>)
    ensures
        sum_of(seq![crate::text::decimal(n as nat)] + rest) == n + sum_of(rest),
        crate::text::parse_dec(w, u64::MAX as nat) is None ==> sum_of(seq![w] + rest) == 0,
        sum_of(Seq::empty()) == 0,
{
    let d = crate::text::decimal(n as nat);
    crate::text::decimal_reads_back(n as nat);
    assert(crate::text::parse_dec(d, u64::MAX as nat) == Some(n as nat));
    assert((seq![d] + rest).skip(1) =~= rest);
    assert((seq![w] + rest).skip(1) =~= rest);
}

/// A line of the guest's output sets just the figure that it is about: the
/// local timer's interrupts, the PIT's, or how long a sleep took.
pub proof fn a_line_sets_its_figure(s: SampleView, raw: Seq<char>, row: Seq<char>)
    ensures
        crate::text::trimmed(raw) == "LOC:"@ + row ==> with_line(s, raw) == (SampleView {
            local_irqs: Some(counts_of(row) as u128),
            ..s
        }),
        crate::text::trimmed(raw) == "0:"@ + row && crate::text::has_part(
            crate::text::trimmed(raw),
            "timer"@,
        ) ==> with_line(s, raw) == (SampleView { pit_irqs: Some(counts_of(row) as u128), ..s }),
        crate::text::trimmed(raw) == "sleep "@ + row && crate::text::words_of(row).len() >= 2
            && crate::double::is_number(crate::text::words_of(row)[0]) && crate::double::is_number(
            crate::text::words_of(row)[1],
        ) ==> with_line(s, raw) == (SampleView {
            sleep: Some((crate::text::words_of(row)[0], crate::text::words_of(row)[1])),
            ..s
        }),
        with_line(s, raw).host_ns == s.host_ns && with_line(s, raw).uptime == s.uptime,
{
    reveal_strlit("sleep ");
    reveal_strlit("0:");
    reveal_strlit("LOC:");
    let line = crate::text::trimmed(raw);
    crate::text::what_is_behind_a_prefix(line, "LOC:"@, row);
    crate::text::what_is_behind_a_prefix(line, "0:"@, row);
    crate::text::what_is_behind_a_prefix(line, "sleep "@, row);
    if line.len() > 0 {
        if crate::text::has_prefix(line, "sleep "@) {
            assert(line.subrange(0, 6)[0] == line[0]);
            assert("sleep "@[0] == 's');
        }
        if crate::text::has_prefix(line, "0:"@) {
            assert(line.subrange(0, 2)[0] == line[0]);
            assert("0:"@[0] == '0');
        }
    }
    assert(("LOC:"@ + row)[0] == 'L');
    assert(("0:"@ + row)[0] == '0');
}

/// Interrupts are counted from one sample to the next, and never below none.
pub proof fn interrupts_are_counted(x: u128, n: u128)
    ensures
        x + n <= u128::MAX ==> counted(Some(x), Some((x + n) as u128)) == Some(n),
        counted(Some(x), Some(0)) == Some(0u128),
        counted(None, Some(x)) is None,
        counted(Some(x), None) is None,
{
}

/// A window is free of problems just where the clock keeps time, the timers
/// fire in time and the PIT is at rest; and each problem is named.
pub proof fn every_problem_is_named(w: Window)
    ensures
        problems_of(w).len() == 0 <==> !off_rate(w) && !late(w) && !on_pit(w),
        off_rate(w) ==> problems_of(w).contains("guest clock does not keep time with the host"@),
        late(w) ==> problems_of(w).contains("guest timers fire late"@),
        on_pit(w) ==> problems_of(w).contains("guest timers run off the emulated PIT"@),
{
    let p = problems_of(w);
    if off_rate(w) {
        assert(p[0] == "guest clock does not keep time with the host"@);
    }
    if late(w) {
        let i = if off_rate(w) {
            1int
        } else {
            0
        };
        assert(p[i] == "guest timers fire late"@);
    }
    if on_pit(w) {
        assert(p[p.len() - 1] == "guest timers run off the emulated PIT"@);
    }
}

} // verus!

//! The report on test runs: which runs count, and the lines about them.
//! Numbers with fractions come as they are to be shown.

use crate::doc::{as_list, as_text, get, number_field, text_field, Doc, DocView};
use crate::text::{cat5, decimal_str, owned, push_line, same, to_chars};
use crate::vessels::text_le;
use vstd::prelude::*;
use vstd::string::StringExecFns;

verus! {

/// A run: its directory, whose name begins with its time, the note on it, and
/// the outcome of its checks.
#[derive(Debug)]
pub struct Run {
    pub dir_name: String,
    pub meta: Doc,
    pub checks: Option<Doc>,
}

/// What a run was of.
pub open spec fn scenario_of_meta(meta: DocView) -> Seq<char> {
    match crate::doc::text_of(crate::doc::field(meta, "scenario"@)) {
        Some(s) => s,
        None => ""@,
    }
}

/// Which engine it ran against.
pub open spec fn flavor_of_meta(meta: DocView) -> Seq<char> {
    match crate::doc::text_of(crate::doc::field(meta, "flavor"@)) {
        Some(s) => s,
        None => ""@,
    }
}

pub fn scenario_of(r: &Run) -> (s: String)
    ensures
        s@ == scenario_of_meta(r.meta@),
{
    match text_field(&r.meta, "scenario") {
        Some(s) => s,
        None => owned(""),
    }
}

fn flavor_of(r: &Run) -> (s: String)
    ensures
        s@ == flavor_of_meta(r.meta@),
{
    match text_field(&r.meta, "flavor") {
        Some(s) => s,
        None => owned(""),
    }
}

/// A flavor and the run that stands for it.
pub struct Chosen {
    pub flavor: Seq<char>,
    pub run: nat,
}

/// The choice with a run for a flavor: in place of the one it had, or before
/// the first flavor that comes after it.
pub open spec fn with_run(s: Seq<Chosen>, c: Chosen) -> Seq<Chosen>
    decreases s.len(),
{
    if s.len() == 0 {
        seq![c]
    } else if s[0].flavor == c.flavor {
        seq![c] + s.skip(1)
    } else if crate::vessels::lex_le(c.flavor, s[0].flavor) {
        seq![c] + s
    } else {
        seq![s[0]] + with_run(s.skip(1), c)
    }
}

/// The choice among the first runs: of every flavor the last one, in the order
/// of the flavors.
pub open spec fn chosen_of(metas: Seq<DocView>, scenario: Seq<char>) -> Seq<Chosen>
    decreases metas.len(),
{
    if metas.len() == 0 {
        Seq::empty()
    } else {
        let before = chosen_of(metas.drop_last(), scenario);
        let m = metas.last();
        if scenario_of_meta(m) == scenario {
            with_run(
                before,
                Chosen { flavor: flavor_of_meta(m), run: (metas.len() - 1) as nat },
            )
        } else {
            before
        }
    }
}

pub open spec fn metas_of(runs: Seq<Run>) -> Seq<DocView> {
    runs.map_values(|r: Run| r.meta@)
}

pub open spec fn chosen_views(v: Seq<(String, usize)>) -> Seq<Chosen> {
    v.map_values(|e: (String, usize)| Chosen { flavor: e.0@, run: e.1 as nat })
}

fn put(v: &mut Vec<(String, usize)>, flavor: &str, run: usize)
    ensures
        chosen_views(final(v)@) == with_run(
            chosen_views(old(v)@),
            (Chosen { flavor: flavor@, run: run as nat }),
        ),
{
    let ghost sv = chosen_views(v@);
    let ghost c = Chosen { flavor: flavor@, run: run as nat };
    let name: Vec<char> = to_chars(flavor);
    let mut i: usize = 0;
    assert(sv.skip(0) =~= sv);
    assert(sv.take(0) + with_run(sv.skip(0), c) =~= with_run(sv, c));
    while i < v.len() && !same(v[i].0.as_str(), flavor) && !text_le(
        &name,
        &to_chars(v[i].0.as_str()),
    )
        invariant
            i <= v@.len(),
            v@ == old(v)@,
            sv == chosen_views(v@),
            name@ == flavor@,
            c.flavor == flavor@,
            sv.take(i as int) + with_run(sv.skip(i as int), c) == with_run(sv, c),
        decreases v@.len() - i,
    {
        proof {
            let rest = sv.skip(i as int);
            assert(rest[0] == sv[i as int]);
            assert(sv[i as int].flavor == v@[i as int].0@);
            assert(rest.skip(1) =~= sv.skip(i as int + 1));
            assert(sv.take(i as int) + (seq![rest[0]] + with_run(rest.skip(1), c)) =~= sv.take(
                i as int + 1,
            ) + with_run(rest.skip(1), c));
        }
        i = i + 1;
    }
    let ghost rest = sv.skip(i as int);
    if i < v.len() && same(v[i].0.as_str(), flavor) {
        proof {
            assert(rest[0] == sv[i as int]);
            assert(sv[i as int].flavor == v@[i as int].0@);
        }
        v.set(i, (owned(flavor), run));
        assert(chosen_views(v@) =~= sv.take(i as int) + (seq![c] + rest.skip(1)));
    } else {
        proof {
            if i < v@.len() {
                assert(rest[0] == sv[i as int]);
                assert(sv[i as int].flavor == v@[i as int].0@);
                assert(with_run(rest, c) == seq![c] + rest);
            } else {
                assert(rest =~= Seq::empty());
                assert(with_run(rest, c) =~= seq![c] + rest);
            }
        }
        v.insert(i, (owned(flavor), run));
        assert(chosen_views(v@) =~= sv.take(i as int) + (seq![c] + rest));
    }
}

/// The newest run of every flavor of a scenario, by the order of the flavors.
/// The runs stand in the order of their directories, the newest last.
pub fn latest(runs: &Vec<Run>, scenario: &str) -> (r: Vec<(String, usize)>)
    ensures
        chosen_views(r@) == chosen_of(metas_of(runs@), scenario@),
{
    let ghost all = metas_of(runs@);
    let mut r: Vec<(String, usize)> = Vec::new();
    let mut i: usize = 0;
    proof {
        assert(all.take(0) =~= Seq::empty());
        assert(chosen_views(r@) =~= Seq::empty());
    }
    while i < runs.len()
        invariant
            i <= runs@.len(),
            all == metas_of(runs@),
            chosen_views(r@) == chosen_of(all.take(i as int), scenario@),
        decreases runs@.len() - i,
    {
        let ghost longer = all.take(i as int + 1);
        proof {
            assert(longer.drop_last() =~= all.take(i as int));
            assert(longer.last() == runs@[i as int].meta@);
        }
        if same(scenario_of(&runs[i]).as_str(), scenario) {
            let flavor: String = flavor_of(&runs[i]);
            put(&mut r, flavor.as_str(), i);
        }
        i = i + 1;
    }
    assert(all.take(runs@.len() as int) =~= all);
    r
}

/// Where the choice has a flavor.
pub open spec fn run_for(s: Seq<Chosen>, flavor: Seq<char>) -> Option<nat>
    decreases s.len(),
{
    if s.len() == 0 {
        None
    } else if s[0].flavor == flavor {
        Some(s[0].run)
    } else {
        run_for(s.skip(1), flavor)
    }
}

proof fn lemma_run_for(s: Seq<Chosen>, c: Chosen, flavor: Seq<char>)
    requires
        in_order(s),
    ensures
        run_for(with_run(s, c), flavor) == (if flavor == c.flavor {
            Some(c.run)
        } else {
            run_for(s, flavor)
        }),
        in_order(with_run(s, c)),
        with_run(s, c).len() > 0,
        forall|i: int|
            0 <= i < with_run(s, c).len() ==> (#[trigger] with_run(s, c)[i] == c || s.contains(
                with_run(s, c)[i],
            )),
    decreases s.len(),
{
    let r = with_run(s, c);
    if s.len() == 0 {
        assert(r.skip(1) =~= Seq::empty());
        assert(run_for(r.skip(1), flavor) is None);
    } else if s[0].flavor == c.flavor {
        assert(r.skip(1) =~= s.skip(1));
        assert forall|i: int| 0 <= i < r.len() implies (#[trigger] r[i] == c || s.contains(r[i])) by {
            if i > 0 {
                assert(r[i] == s[i]);
            }
        }
        assert forall|i: int, j: int| 0 <= i < j < r.len() implies before_in(
            #[trigger] r[i],
            #[trigger] r[j],
        ) by {
            assert(before_in(s[i], s[j]));
            assert(r[j] == s[j]);
            if i > 0 {
                assert(r[i] == s[i]);
            }
        }
    } else if crate::vessels::lex_le(c.flavor, s[0].flavor) {
        assert(r.skip(1) =~= s);
        assert forall|i: int| 0 <= i < r.len() implies (#[trigger] r[i] == c || s.contains(r[i])) by {
            if i > 0 {
                assert(r[i] == s[i - 1]);
            }
        }
        lemma_absent(s, c.flavor);
        assert forall|i: int, j: int| 0 <= i < j < r.len() implies before_in(
            #[trigger] r[i],
            #[trigger] r[j],
        ) by {
            assert(r[j] == s[j - 1]);
            if i > 0 {
                assert(r[i] == s[i - 1]);
                assert(before_in(s[i - 1], s[j - 1]));
            } else if j > 1 {
                assert(before_in(s[0], s[j - 1]));
                crate::vessels::lemma_lex_trans(c.flavor, s[0].flavor, s[j - 1].flavor);
                if s[j - 1].flavor == c.flavor {
                    crate::vessels::lemma_lex_antisym(c.flavor, s[0].flavor);
                }
            }
        }
    } else {
        let rest = s.skip(1);
        assert forall|i: int, j: int| 0 <= i < j < rest.len() implies before_in(
            #[trigger] rest[i],
            #[trigger] rest[j],
        ) by {
            assert(before_in(s[i + 1], s[j + 1]));
        }
        lemma_run_for(rest, c, flavor);
        let w = with_run(rest, c);
        assert(r.skip(1) =~= w);
        crate::vessels::lemma_lex_total(c.flavor, s[0].flavor);
        assert forall|i: int| 0 <= i < r.len() implies (#[trigger] r[i] == c || s.contains(r[i])) by {
            if i == 0 {
                assert(s.contains(s[0]));
            } else {
                assert(r[i] == w[i - 1]);
                if w[i - 1] != c {
                    let k = choose|k: int| 0 <= k < rest.len() && rest[k] == w[i - 1];
                    assert(s[k + 1] == w[i - 1]);
                }
            }
        }
        assert forall|i: int, j: int| 0 <= i < j < r.len() implies before_in(
            #[trigger] r[i],
            #[trigger] r[j],
        ) by {
            assert(r[j] == w[j - 1]);
            if i > 0 {
                assert(r[i] == w[i - 1]);
                assert(before_in(w[i - 1], w[j - 1]));
            } else if w[j - 1] != c {
                let k = choose|k: int| 0 <= k < rest.len() && rest[k] == w[j - 1];
                assert(before_in(s[0], s[k + 1]));
            }
        }
    }
}

/// One flavor comes before another one.
pub open spec fn before_in(a: Chosen, b: Chosen) -> bool {
    crate::vessels::lex_le(a.flavor, b.flavor) && a.flavor != b.flavor
}

/// The flavors are in order, and none occurs twice.
pub open spec fn in_order(s: Seq<Chosen>) -> bool {
    forall|i: int, j: int|
        0 <= i < j < s.len() ==> before_in(#[trigger] s[i], #[trigger] s[j])
}

proof fn lemma_absent(s: Seq<Chosen>, flavor: Seq<char>)
    requires
        in_order(s),
        s.len() > 0,
        s[0].flavor != flavor,
        crate::vessels::lex_le(flavor, s[0].flavor),
    ensures
        run_for(s, flavor) is None,
{
    lemma_absent_from(s, flavor, s[0]);
}

proof fn lemma_absent_from(s: Seq<Chosen>, flavor: Seq<char>, first: Chosen)
    requires
        first.flavor != flavor,
        crate::vessels::lex_le(flavor, first.flavor),
        forall|i: int| 0 <= i < s.len() ==> (#[trigger] s[i] == first || before_in(first, s[i])),
    ensures
        run_for(s, flavor) is None,
    decreases s.len(),
{
    if s.len() > 0 {
        let rest = s.skip(1);
        assert(s[0] == first || before_in(first, s[0]));
        if s[0].flavor == flavor {
            crate::vessels::lemma_lex_antisym(flavor, first.flavor);
        }
        assert forall|i: int| 0 <= i < rest.len() implies (#[trigger] rest[i] == first || before_in(
            first,
            rest[i],
        )) by {
            assert(rest[i] == s[i + 1]);
        }
        lemma_absent_from(rest, flavor, first);
    }
}

/// Of every flavor the last run of the scenario counts: the one that is chosen
/// is of the scenario and the flavor, and no later one is; and no flavor is
/// chosen twice.
pub proof fn the_newest_run_counts(metas: Seq<DocView>, scenario: Seq<char>, flavor: Seq<char>)
    ensures
        in_order(chosen_of(metas, scenario)),
        match run_for(chosen_of(metas, scenario), flavor) {
            Some(k) => k < metas.len() && scenario_of_meta(metas[k as int]) == scenario
                && flavor_of_meta(metas[k as int]) == flavor && forall|j: int|
                k < j < metas.len() ==> !(scenario_of_meta(#[trigger] metas[j]) == scenario
                    && flavor_of_meta(metas[j]) == flavor),
            None => forall|j: int|
                0 <= j < metas.len() ==> !(scenario_of_meta(#[trigger] metas[j]) == scenario
                    && flavor_of_meta(metas[j]) == flavor),
        },
    decreases metas.len(),
{
    if metas.len() > 0 {
        let short = metas.drop_last();
        let m = metas.last();
        the_newest_run_counts(short, scenario, flavor);
        let before = chosen_of(short, scenario);
        if scenario_of_meta(m) == scenario {
            let c = Chosen { flavor: flavor_of_meta(m), run: (metas.len() - 1) as nat };
            lemma_run_for(before, c, flavor);
        }
        match run_for(chosen_of(metas, scenario), flavor) {
            Some(k) => {
                assert forall|j: int| k < j < metas.len() implies !(scenario_of_meta(
                    #[trigger] metas[j],
                ) == scenario && flavor_of_meta(metas[j]) == flavor) by {
                    if j < short.len() {
                        assert(short[j] == metas[j]);
                    }
                }
                if k < short.len() {
                    assert(short[k as int] == metas[k as int]);
                }
            },
            None => {
                assert forall|j: int| 0 <= j < metas.len() implies !(scenario_of_meta(
                    #[trigger] metas[j],
                ) == scenario && flavor_of_meta(metas[j]) == flavor) by {
                    if j < short.len() {
                        assert(short[j] == metas[j]);
                    }
                }
            },
        }
    }
}

// The lines

/// A text of a point, or a question mark.
pub open spec fn or_unknown(d: DocView, key: Seq<char>) -> Seq<char> {
    match crate::doc::text_of(crate::doc::field(d, key)) {
        Some(s) => s,
        None => "?"@,
    }
}

fn told(d: &Doc, key: &str) -> (s: String)
    ensures
        s@ == or_unknown(d@, key@),
{
    match text_field(d, key) {
        Some(s) => s,
        None => owned("?"),
    }
}

/// A row about containers; the ceiling and the count are as they are shown.
pub fn container_row(p: &Doc, max_ram: &str, running: &str) -> (s: String)
    ensures
        s@ == "| "@ + or_unknown(p@, "flavor"@) + " | "@ + or_unknown(p@, "workload"@) + " | "@
            + max_ram@ + " | "@ + running@ + " | "@ + or_unknown(p@, "stop_reason"@) + " | "@
            + crate::text::decimal(
            match crate::doc::number_of(crate::doc::field(p@, "container_errors"@)) {
                Some(n) => n,
                None => 0,
            },
        ) + " |"@,
{
    let errors: u64 = match number_field(p, "container_errors") {
        Some(n) => n,
        None => 0,
    };
    let mut s: String = cat5(
        "| ",
        told(p, "flavor").as_str(),
        " | ",
        told(p, "workload").as_str(),
        " | ",
    );
    s.append(max_ram);
    s.append(" | ");
    s.append(running);
    s.append(" | ");
    s.append(told(p, "stop_reason").as_str());
    s.append(" | ");
    s.append(decimal_str(errors).as_str());
    s.append(" |");
    s
}

/// The figures of a row about vessels, as they are shown.
#[derive(Debug)]
pub struct VesselFigures {
    pub mem: String,
    pub count: String,
    pub boot_first: String,
    pub boot_last: String,
    pub host_cost: String,
}

/// A row about vessels.
pub fn vessel_row(p: &Doc, f: &VesselFigures) -> (s: String)
    ensures
        s@ == "| "@ + or_unknown(p@, "backend"@) + " | "@ + f.mem@ + " | "@ + f.count@ + " | "@
            + or_unknown(p@, "stop_reason"@) + " | "@ + f.boot_first@ + "→"@ + f.boot_last@
            + " | "@ + f.host_cost@ + " |"@,
{
    let mut s: String = cat5(
        "| ",
        told(p, "backend").as_str(),
        " | ",
        f.mem.as_str(),
        " | ",
    );
    s.append(f.count.as_str());
    s.append(" | ");
    s.append(told(p, "stop_reason").as_str());
    s.append(" | ");
    s.append(f.boot_first.as_str());
    s.append("→");
    s.append(f.boot_last.as_str());
    s.append(" | ");
    s.append(f.host_cost.as_str());
    s.append(" |");
    s
}

/// The failures that a run's checks list.
pub open spec fn failure_lines(items: Seq<DocView>) -> Seq<Seq<char>> {
    items.map_values(
        |d: DocView|
            "- FAIL: "@ + (match crate::doc::text_of(d) {
                Some(s) => s,
                None => "?"@,
            }),
    )
}

/// What is said of the checks of a run.
pub open spec fn check_lines(dir: Seq<char>, checks: DocView) -> Seq<Seq<char>> {
    seq![
        "Latest run `"@ + dir + "`: **"@ + (if crate::doc::field(checks, "passed"@)
            == DocView::Bool(true) {
            "PASS"@
        } else {
            "FAIL"@
        }) + "**"@,
        ""@,
    ] + failure_lines(crate::doc::items_of(crate::doc::field(checks, "failures"@)))
}

fn is_true(d: &Doc) -> (r: bool)
    ensures
        r == (d@ == DocView::Bool(true)),
{
    match d {
        Doc::Bool(b) => *b,
        _ => false,
    }
}

/// The lines about the checks of a run.
pub fn balloon_lines(r: &Run) -> (lines: Vec<String>)
    ensures
        crate::text::views(lines@) == (match r.checks {
            Some(c) => check_lines(r.dir_name@, c@),
            None => Seq::empty(),
        }),
{
    let mut out: Vec<String> = Vec::new();
    match &r.checks {
        Some(c) => {
            let passed: bool = match get(c, "passed") {
                Some(p) => is_true(p),
                None => false,
            };
            let word: &str = if passed {
                "PASS"
            } else {
                "FAIL"
            };
            push_line(
                &mut out,
                cat5("Latest run `", r.dir_name.as_str(), "`: **", word, "**"),
            );
            push_line(&mut out, owned(""));
            let ghost first = crate::text::views(out@);
            assert(first =~= seq![
                "Latest run `"@ + r.dir_name@ + "`: **"@ + word@ + "**"@,
                ""@,
            ]);
            match get(c, "failures") {
                Some(f) => match as_list(f) {
                    Some(items) => {
                        push_failures(&mut out, items);
                    },
                    None => {
                        assert(first + failure_lines(Seq::empty()) =~= first);
                    },
                },
                None => {
                    assert(first + failure_lines(Seq::empty()) =~= first);
                },
            }
        },
        None => {
            assert(crate::text::views(out@) =~= Seq::empty());
        },
    }
    out
}

fn push_failures(out: &mut Vec<String>, items: &Vec<Doc>)
    ensures
        crate::text::views(final(out)@) == crate::text::views(old(out)@) + failure_lines(
            crate::doc::doc_views(items@),
        ),
{
    let ghost start = crate::text::views(out@);
    let ghost want = failure_lines(crate::doc::doc_views(items@));
    let mut i: usize = 0;
    assert(start + want.take(0) =~= start);
    while i < items.len()
        invariant
            i <= items@.len(),
            want == failure_lines(crate::doc::doc_views(items@)),
            crate::text::views(out@) == start + want.take(i as int),
        decreases items@.len() - i,
    {
        let what: String = match as_text(&items[i]) {
            Some(s) => s,
            None => owned("?"),
        };
        let line: String = crate::text::cat2("- FAIL: ", what.as_str());
        push_line(out, line);
        proof {
            assert(crate::doc::doc_views(items@)[i as int] == items@[i as int]@);
            assert(want[i as int] == line@);
            assert(start + want.take(i as int + 1) =~= (start + want.take(i as int)).push(line@));
        }
        i = i + 1;
    }
    assert(want.take(items@.len() as int) =~= want);
}

/// A row about a figure, as it is shown.
pub fn metric_row(name: &str, value: &str) -> (s: String)
    ensures
        s@ == "| "@ + name@ + " | "@ + value@ + " |"@,
{
    cat5("| ", name, " | ", value, " |")
}

// The report

/// Lines, each with its end.
pub open spec fn lines_text(lines: Seq<Seq<char>>) -> Seq<char>
    decreases lines.len(),
{
    if lines.len() == 0 {
        Seq::empty()
    } else {
        lines_text(lines.drop_last()) + lines.last() + "\n"@
    }
}

fn push_lines(out: &mut String, lines: &Vec<String>)
    ensures
        final(out)@ == old(out)@ + lines_text(crate::text::views(lines@)),
{
    let ghost start = out@;
    let ghost all = crate::text::views(lines@);
    let mut i: usize = 0;
    assert(all.take(0) =~= Seq::empty());
    assert(start + lines_text(all.take(0)) =~= start);
    while i < lines.len()
        invariant
            i <= lines@.len(),
            all == crate::text::views(lines@),
            out@ == start + lines_text(all.take(i as int)),
        decreases lines@.len() - i,
    {
        let ghost before = out@;
        out.append(lines[i].as_str());
        out.append("\n");
        proof {
            let longer = all.take(i as int + 1);
            assert(longer.drop_last() =~= all.take(i as int));
            assert(longer.last() == lines@[i as int]@);
            assert(out@ =~= start + (lines_text(all.take(i as int)) + lines@[i as int]@ + "\n"@));
        }
        i = i + 1;
    }
    assert(all.take(lines@.len() as int) =~= all);
}

/// How the report begins.
pub fn report_head(input: &str) -> (s: String)
    ensures
        s@ == "# Nebula battle-test report\n\nGenerated from `"@ + input@
            + "`. Newest run of each scenario wins.\n\n"@,
{
    crate::text::cat3(
        "# Nebula battle-test report\n\nGenerated from `",
        input,
        "`. Newest run of each scenario wins.\n\n",
    )
}

/// The section about containers: a table of its rows, and its chart.
pub fn container_section(rows: &Vec<String>) -> (s: String)
    ensures
        s@ == "## Containers in vessel 0 vs max RAM\n\n| flavor | workload | max RAM (MiB) | containers | stop reason | errors |\n|---|---|---|---|---|---|\n"@
            + lines_text(crate::text::views(rows@))
            + "\n![containers vs max RAM](containers-vs-maxram.svg)\n\n"@,
{
    let mut s: String = owned(
        "## Containers in vessel 0 vs max RAM\n\n| flavor | workload | max RAM (MiB) | containers | stop reason | errors |\n|---|---|---|---|---|---|\n",
    );
    push_lines(&mut s, rows);
    s.append("\n![containers vs max RAM](containers-vs-maxram.svg)\n\n");
    s
}

/// The section about vessels: a table of its rows, and its chart.
pub fn vessel_section(rows: &Vec<String>) -> (s: String)
    ensures
        s@ == "## Concurrent vessels vs per-vessel RAM\n\n| backend | mem (MiB) | vessels | stop reason | boot first→last (ms) | host cost/vessel (MiB) |\n|---|---|---|---|---|---|\n"@
            + lines_text(crate::text::views(rows@))
            + "\n![vessels vs per-vessel RAM](vessels-vs-mem.svg)\n\n"@,
{
    let mut s: String = owned(
        "## Concurrent vessels vs per-vessel RAM\n\n| backend | mem (MiB) | vessels | stop reason | boot first→last (ms) | host cost/vessel (MiB) |\n|---|---|---|---|---|---|\n",
    );
    push_lines(&mut s, rows);
    s.append("\n![vessels vs per-vessel RAM](vessels-vs-mem.svg)\n\n");
    s
}

/// The last run of a scenario.
pub open spec fn last_of(metas: Seq<DocView>, scenario: Seq<char>) -> Option<nat>
    decreases metas.len(),
{
    if metas.len() == 0 {
        None
    } else if scenario_of_meta(metas.last()) == scenario {
        Some((metas.len() - 1) as nat)
    } else {
        last_of(metas.drop_last(), scenario)
    }
}

/// The newest run of a scenario, whatever it ran against.
pub fn newest(runs: &Vec<Run>, scenario: &str) -> (r: Option<usize>)
    ensures
        match r {
            Some(i) => i < runs@.len() && last_of(metas_of(runs@), scenario@) == Some(i as nat),
            None => last_of(metas_of(runs@), scenario@) is None,
        },
{
    let ghost all = metas_of(runs@);
    let mut n: usize = runs.len();
    assert(all.take(n as int) =~= all);
    while n > 0
        invariant
            n <= runs@.len(),
            all == metas_of(runs@),
            last_of(all.take(n as int), scenario@) == last_of(all, scenario@),
        decreases n,
    {
        proof {
            assert(all.take(n as int).last() == runs@[n - 1].meta@);
            assert(all.take(n as int).drop_last() =~= all.take(n - 1));
        }
        if same(scenario_of(&runs[n - 1]).as_str(), scenario) {
            return Some(n - 1);
        }
        n = n - 1;
    }
    None
}

/// The section about the balloon: what came of the checks of a run, and the
/// rows of its figures where it has any.
pub fn balloon_section(r: &Run, metrics: &Option<Vec<String>>) -> (s: String)
    ensures
        s@ == "## Balloon contract\n\n"@ + lines_text(
            match r.checks {
                Some(c) => check_lines(r.dir_name@, c@),
                None => Seq::empty(),
            },
        ) + (match *metrics {
            Some(rows) => "\n| metric | value |\n|---|---|\n"@ + lines_text(
                crate::text::views(rows@),
            ),
            None => ""@,
        }) + "\n"@,
{
    let mut s: String = owned("## Balloon contract\n\n");
    push_lines(&mut s, &balloon_lines(r));
    let ghost told = s@;
    match metrics {
        Some(rows) => {
            s.append("\n| metric | value |\n|---|---|\n");
            push_lines(&mut s, rows);
            assert(s@ =~= told + ("\n| metric | value |\n|---|---|\n"@ + lines_text(
                crate::text::views(rows@),
            )));
        },
        None => {
            proof {
                reveal_strlit("");
            }
            assert(s@ =~= told + ""@);
        },
    }
    s.append("\n");
    s
}

/// The line of a chart that a point about containers belongs to.
pub fn container_series(p: &Doc) -> (s: String)
    ensures
        s@ == or_unknown(p@, "flavor"@) + "/"@ + or_unknown(p@, "workload"@),
{
    crate::text::cat3(told(p, "flavor").as_str(), "/", told(p, "workload").as_str())
}

/// The line of a chart that a point about vessels belongs to.
pub fn vessel_series(p: &Doc) -> (s: String)
    ensures
        s@ == or_unknown(p@, "backend"@),
{
    told(p, "backend")
}

/// The newest run of a scenario is its last one.
pub proof fn the_last_run_of_a_scenario(metas: Seq<DocView>, scenario: Seq<char>)
    ensures
        match last_of(metas, scenario) {
            Some(i) => i < metas.len() && scenario_of_meta(metas[i as int]) == scenario && forall|
                j: int,
            |
                i < j < metas.len() ==> scenario_of_meta(#[trigger] metas[j]) != scenario,
            None => forall|j: int|
                0 <= j < metas.len() ==> scenario_of_meta(#[trigger] metas[j]) != scenario,
        },
    decreases metas.len(),
{
    if metas.len() > 0 && scenario_of_meta(metas.last()) != scenario {
        let short = metas.drop_last();
        the_last_run_of_a_scenario(short, scenario);
        match last_of(short, scenario) {
            Some(i) => {
                assert(short[i as int] == metas[i as int]);
                assert forall|j: int| i < j < metas.len() implies scenario_of_meta(
                    #[trigger] metas[j],
                ) != scenario by {
                    if j < short.len() {
                        assert(short[j] == metas[j]);
                    }
                }
            },
            None => {
                assert forall|j: int| 0 <= j < metas.len() implies scenario_of_meta(
                    #[trigger] metas[j],
                ) != scenario by {
                    if j < short.len() {
                        assert(short[j] == metas[j]);
                    }
                }
            },
        }
    }
}

/// A run passed just where its checks say so, and each of its failures is
/// listed.
pub proof fn what_is_said_of_a_run(dir: Seq<char>, checks: DocView, k: int)
    ensures
        crate::doc::field(checks, "passed"@) == DocView::Bool(true) ==> check_lines(dir, checks)[0]
            == "Latest run `"@ + dir + "`: **"@ + "PASS"@ + "**"@,
        crate::doc::field(checks, "passed"@) != DocView::Bool(true) ==> check_lines(dir, checks)[0]
            == "Latest run `"@ + dir + "`: **"@ + "FAIL"@ + "**"@,
        ({
            let l = crate::doc::items_of(crate::doc::field(checks, "failures"@));
            &&& check_lines(dir, checks).len() == 2 + l.len()
            &&& (0 <= k < l.len() && l[k] is Str ==> check_lines(dir, checks)[2 + k] == "- FAIL: "@
                + l[k]->Str_0)
        }),
{
}

} // verus!

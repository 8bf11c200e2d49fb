//! The bodies of the REST API's answers, as documents.

use crate::api::console_start;
use crate::branch::{BranchOutcome, BranchedVessel};
use crate::bytes::from_utf8_lossy;
use crate::doc::{Doc, DocView};
use crate::lifecycle::{StartOutcome, Started, StopOutcome, VesselSummary};
use crate::snapshots::{DiskOnlyReason, RestoreOutcome, SnapshotInfo, SnapshotOutcome};
use crate::text::{decimal_str, owned, same};
use crate::vessels::VesselError;
use vstd::prelude::*;

verus! {

pub open spec fn text_doc(s: Seq<char>) -> DocView {
    DocView::Str(s)
}

pub open spec fn number_doc(n: nat) -> DocView {
    DocView::Num(crate::text::decimal(n))
}

/// A member of an answer.
pub open spec fn entry(key: Seq<char>, v: DocView) -> (DocView, DocView) {
    (DocView::Str(key), v)
}

fn put(t: &mut Vec<(Doc, Doc)>, key: &str, v: Doc)
    ensures
        crate::doc::member_views(final(t)@) == crate::doc::member_views(old(t)@).push(
            entry(key@, v@),
        ),
{
    let ghost before = crate::doc::member_views(t@);
    let k: Doc = Doc::Str(owned(key));
    t.push((k, v));
    assert(crate::doc::member_views(t@) =~= before.push(entry(key@, v@)));
}

fn empty() -> (t: Vec<(Doc, Doc)>)
    ensures
        crate::doc::member_views(t@) == Seq::<(DocView, DocView)>::empty(),
{
    let t: Vec<(Doc, Doc)> = Vec::new();
    assert(crate::doc::member_views(t@) =~= Seq::empty());
    t
}

fn table(t: Vec<(Doc, Doc)>) -> (d: Doc)
    ensures
        d@ == DocView::Table(crate::doc::member_views(t@)),
{
    let d: Doc = Doc::Table(t);
    proof {
        crate::doc::lemma_tree(d);
    }
    d
}

fn text(s: &str) -> (d: Doc)
    ensures
        d@ == text_doc(s@),
{
    Doc::Str(owned(s))
}

fn number(n: u64) -> (d: Doc)
    ensures
        d@ == number_doc(n as nat),
{
    Doc::Num(decimal_str(n))
}

/// The body of an answer that is an error.
pub fn error_body(message: &str) -> (d: Doc)
    ensures
        d@ == DocView::Table(seq![entry("error"@, text_doc(message@))]),
{
    let mut t: Vec<(Doc, Doc)> = empty();
    put(&mut t, "error", text(message));
    assert(crate::doc::member_views(t@) =~= seq![entry("error"@, text_doc(message@))]);
    table(t)
}

/// The body of an answer with one word in it: `removed`, `created`.
pub fn one_word(key: &str, word: &str) -> (d: Doc)
    ensures
        d@ == DocView::Table(seq![entry(key@, text_doc(word@))]),
{
    let mut t: Vec<(Doc, Doc)> = empty();
    put(&mut t, key, text(word));
    assert(crate::doc::member_views(t@) =~= seq![entry(key@, text_doc(word@))]);
    table(t)
}

/// A vessel in a list.
pub open spec fn summary_of(s: VesselSummary) -> DocView {
    DocView::Table(
        seq![
            entry("name"@, text_doc(s.name@)),
            entry("running"@, DocView::Bool(s.running)),
            entry("cpus"@, number_doc(s.cpus as nat)),
            entry("mem_mib"@, number_doc(s.mem_mib as nat)),
            entry("gpu"@, DocView::Bool(s.gpu)),
            entry("backend"@, text_doc(s.backend@)),
        ],
    )
}

pub fn summary(s: &VesselSummary) -> (d: Doc)
    ensures
        d@ == summary_of(*s),
{
    let mut t: Vec<(Doc, Doc)> = empty();
    put(&mut t, "name", text(s.name.as_str()));
    put(&mut t, "running", Doc::Bool(s.running));
    put(&mut t, "cpus", number(s.cpus as u64));
    put(&mut t, "mem_mib", number(s.mem_mib));
    put(&mut t, "gpu", Doc::Bool(s.gpu));
    put(&mut t, "backend", text(s.backend.as_str()));
    assert(crate::doc::member_views(t@) =~= summary_of(*s)->Table_0);
    table(t)
}

/// The list of vessels.
pub fn summaries(all: &Vec<VesselSummary>) -> (d: Doc)
    ensures
        d@ == DocView::List(all@.map_values(|s: VesselSummary| summary_of(s))),
{
    let mut list: Vec<Doc> = Vec::new();
    let mut i: usize = 0;
    while i < all.len()
        invariant
            i <= all@.len(),
            list@.len() == i,
            forall|j: int| 0 <= j < i ==> (#[trigger] list@[j])@ == summary_of(all@[j]),
        decreases all@.len() - i,
    {
        list.push(summary(&all[i]));
        i = i + 1;
    }
    let d: Doc = Doc::List(list);
    proof {
        crate::doc::lemma_tree(d);
        assert(crate::doc::doc_views(list@) =~= all@.map_values(|s: VesselSummary| summary_of(s)));
    }
    d
}

/// Whether the vessel at `i` is the first of a name.
pub open spec fn first_named(all: Seq<VesselSummary>, name: Seq<char>, i: int) -> bool {
    &&& 0 <= i < all.len()
    &&& all[i].name@ == name
    &&& forall|j: int| 0 <= j < i ==> (#[trigger] all[j]).name@ != name
}

/// The one vessel of a name, or the error that there is none.
pub fn vessel_named(all: &Vec<VesselSummary>, name: &str) -> (r: Result<Doc, VesselError>)
    ensures
        match r {
            Ok(d) => exists|i: int| #[trigger]
                first_named(all@, name@, i) && d@ == summary_of(all@[i]),
            Err(e) => {
                &&& forall|j: int| 0 <= j < all@.len() ==> (#[trigger] all@[j]).name@ != name@
                &&& e@ == (crate::vessels::VesselErrorView::NoVessel { name: name@ })
            },
        },
{
    let mut i: usize = 0;
    while i < all.len()
        invariant
            i <= all@.len(),
            forall|j: int| 0 <= j < i ==> (#[trigger] all@[j]).name@ != name@,
        decreases all@.len() - i,
    {
        if same(all[i].name.as_str(), name) {
            assert(first_named(all@, name@, i as int));
            return Ok(summary(&all[i]));
        }
        i = i + 1;
    }
    Err(VesselError::NoVessel { name: owned(name) })
}

/// The last `tail` bytes of a vessel's console log, as text.
pub fn console(log: &Vec<u8>, tail: u64) -> (d: Doc)
    ensures
        d@ == DocView::Table(
            seq![
                entry(
                    "console"@,
                    text_doc(
                        crate::bytes::lossy_text(
                            if tail >= log@.len() {
                                log@
                            } else {
                                log@.skip(log@.len() - tail)
                            },
                        ),
                    ),
                ),
            ],
        ),
{
    let from: usize = console_start(log.len(), tail);
    let shown: &[u8] = vstd::slice::slice_subrange(log.as_slice(), from, log.len());
    let said: String = from_utf8_lossy(shown);
    proof {
        assert(shown@ =~= (if tail >= log@.len() {
            log@
        } else {
            log@.skip(log@.len() - tail)
        }));
    }
    one_word("console", said.as_str())
}

/// A vessel that came up, under the word for how.
pub open spec fn started_of(outcome: Seq<char>, s: Started) -> DocView {
    DocView::Table(
        seq![
            entry("outcome"@, text_doc(outcome)),
            entry("resumed"@, DocView::Bool(s.resumed)),
            entry("boot_ms"@, number_doc(s.boot_ms as nat)),
            entry("kernel"@, text_doc(s.kernel@)),
            entry("agent_version"@, text_doc(s.agent_version@)),
        ],
    )
}

fn started(outcome: &str, s: &Started) -> (d: Doc)
    ensures
        d@ == started_of(outcome@, *s),
{
    let mut t: Vec<(Doc, Doc)> = empty();
    put(&mut t, "outcome", text(outcome));
    put(&mut t, "resumed", Doc::Bool(s.resumed));
    put(&mut t, "boot_ms", number(s.boot_ms));
    put(&mut t, "kernel", text(s.kernel.as_str()));
    put(&mut t, "agent_version", text(s.agent_version.as_str()));
    assert(crate::doc::member_views(t@) =~= started_of(outcome@, *s)->Table_0);
    table(t)
}

pub open spec fn start_of(o: StartOutcome) -> DocView {
    match o {
        StartOutcome::AlreadyRunning => DocView::Table(
            seq![entry("outcome"@, text_doc("already_running"@))],
        ),
        StartOutcome::Started(s) => started_of("started"@, s),
    }
}

/// What a start came to.
pub fn start_outcome(o: &StartOutcome) -> (d: Doc)
    ensures
        d@ == start_of(*o),
{
    match o {
        StartOutcome::AlreadyRunning => one_word("outcome", "already_running"),
        StartOutcome::Started(s) => started("started", s),
    }
}

/// A vessel that was made, and how it came up where it was started.
pub fn created(name: &str, start: &Option<StartOutcome>) -> (d: Doc)
    ensures
        d@ == DocView::Table(
            seq![entry("created"@, text_doc(name@))] + (match *start {
                Some(o) => seq![entry("start"@, start_of(o))],
                None => Seq::empty(),
            }),
        ),
{
    let mut t: Vec<(Doc, Doc)> = empty();
    put(&mut t, "created", text(name));
    match start {
        Some(o) => {
            put(&mut t, "start", start_outcome(o));
            assert(crate::doc::member_views(t@) =~= seq![entry("created"@, text_doc(name@))] + seq![
                entry("start"@, start_of(*o)),
            ]);
        },
        None => {
            assert(crate::doc::member_views(t@) =~= seq![entry("created"@, text_doc(name@))]
                + Seq::<(DocView, DocView)>::empty());
        },
    }
    table(t)
}

/// What a stop came to.
pub fn stop_outcome(o: StopOutcome) -> (d: Doc)
    ensures
        d@ == text_doc(
            match o {
                StopOutcome::NotRunning => "not_running"@,
                StopOutcome::Stopped => "stopped"@,
                StopOutcome::Forced => "forced"@,
            },
        ),
{
    text(
        match o {
            StopOutcome::NotRunning => "not_running",
            StopOutcome::Stopped => "stopped",
            StopOutcome::Forced => "forced",
        },
    )
}

/// A snapshot in a list.
pub open spec fn info_of(s: SnapshotInfo) -> DocView {
    DocView::Table(
        seq![entry("label"@, text_doc(s.label@)), entry("memory"@, DocView::Bool(s.memory))],
    )
}

fn snapshot_info(s: &SnapshotInfo) -> (d: Doc)
    ensures
        d@ == info_of(*s),
{
    let mut t: Vec<(Doc, Doc)> = empty();
    put(&mut t, "label", text(s.label.as_str()));
    put(&mut t, "memory", Doc::Bool(s.memory));
    assert(crate::doc::member_views(t@) =~= info_of(*s)->Table_0);
    table(t)
}

/// The list of a vessel's snapshots.
pub fn snapshot_infos(all: &Vec<SnapshotInfo>) -> (d: Doc)
    ensures
        d@ == DocView::List(all@.map_values(|s: SnapshotInfo| info_of(s))),
{
    let mut list: Vec<Doc> = Vec::new();
    let mut i: usize = 0;
    while i < all.len()
        invariant
            i <= all@.len(),
            list@.len() == i,
            forall|j: int| 0 <= j < i ==> (#[trigger] list@[j])@ == info_of(all@[j]),
        decreases all@.len() - i,
    {
        list.push(snapshot_info(&all[i]));
        i = i + 1;
    }
    let d: Doc = Doc::List(list);
    proof {
        crate::doc::lemma_tree(d);
        assert(crate::doc::doc_views(list@) =~= all@.map_values(|s: SnapshotInfo| info_of(s)));
    }
    d
}

pub open spec fn reason_word(r: DiskOnlyReason) -> Seq<char> {
    match r {
        DiskOnlyReason::Requested => "requested"@,
        DiskOnlyReason::BackendUnsupported => "backend_unsupported"@,
        DiskOnlyReason::NotRunning => "not_running"@,
    }
}

pub open spec fn snapshot_of(o: SnapshotOutcome) -> DocView {
    match o {
        SnapshotOutcome::Memory { ms, state_mb } => DocView::Table(
            seq![
                entry("kind"@, text_doc("memory"@)),
                entry("ms"@, number_doc(ms as nat)),
                entry("state_mb"@, number_doc(state_mb as nat)),
            ],
        ),
        SnapshotOutcome::DiskOnly { ms, reason } => DocView::Table(
            seq![
                entry("kind"@, text_doc("disk_only"@)),
                entry("ms"@, number_doc(ms as nat)),
                entry("reason"@, text_doc(reason_word(reason))),
            ],
        ),
    }
}

/// What a snapshot came to.
pub fn snapshot_outcome(o: &SnapshotOutcome) -> (d: Doc)
    ensures
        d@ == snapshot_of(*o),
{
    let mut t: Vec<(Doc, Doc)> = empty();
    match o {
        SnapshotOutcome::Memory { ms, state_mb } => {
            put(&mut t, "kind", text("memory"));
            put(&mut t, "ms", number(*ms));
            put(&mut t, "state_mb", number(*state_mb));
        },
        SnapshotOutcome::DiskOnly { ms, reason } => {
            let word: &str = match reason {
                DiskOnlyReason::Requested => "requested",
                DiskOnlyReason::BackendUnsupported => "backend_unsupported",
                DiskOnlyReason::NotRunning => "not_running",
            };
            put(&mut t, "kind", text("disk_only"));
            put(&mut t, "ms", number(*ms));
            put(&mut t, "reason", text(word));
        },
    }
    assert(crate::doc::member_views(t@) =~= snapshot_of(*o)->Table_0);
    table(t)
}

/// What a roll back came to; `s` tells how a vessel that resumed came up.
pub open spec fn restore_of(o: RestoreOutcome, s: Option<Started>) -> DocView {
    match o {
        RestoreOutcome::LiveResume => started_of("live_resume"@, s->0),
        RestoreOutcome::ColdBootFallback { resume_error } => DocView::Table(
            seq![
                entry("outcome"@, text_doc("cold_boot_fallback"@)),
                entry("resume_error"@, text_doc(resume_error@)),
            ],
        ),
        RestoreOutcome::DiskRestore { restarted } => DocView::Table(
            seq![
                entry("outcome"@, text_doc("disk_restore"@)),
                entry("restarted"@, DocView::Bool(restarted)),
            ],
        ),
    }
}

/// The body for a roll back, or nothing where a vessel resumed and how it came
/// up was not handed in.
pub fn restore_outcome(o: &RestoreOutcome, s: &Option<Started>) -> (d: Option<Doc>)
    ensures
        d is None <==> *o is LiveResume && *s is None,
        d matches Some(d) ==> d@ == restore_of(*o, *s),
{
    let mut t: Vec<(Doc, Doc)> = empty();
    match o {
        RestoreOutcome::LiveResume => {
            return match s {
                Some(s) => Some(started("live_resume", s)),
                None => None,
            };
        },
        RestoreOutcome::ColdBootFallback { resume_error } => {
            put(&mut t, "outcome", text("cold_boot_fallback"));
            put(&mut t, "resume_error", text(resume_error.as_str()));
        },
        RestoreOutcome::DiskRestore { restarted } => {
            put(&mut t, "outcome", text("disk_restore"));
            put(&mut t, "restarted", Doc::Bool(*restarted));
        },
    }
    assert(crate::doc::member_views(t@) =~= restore_of(*o, *s)->Table_0);
    Some(table(t))
}

pub open spec fn branched_of(v: BranchedVessel) -> DocView {
    DocView::Table(
        seq![
            entry("name"@, text_doc(v.name@)),
            entry("live"@, DocView::Bool(v.live)),
            entry(
                "fallback_error"@,
                match v.fallback_error {
                    Some(e) => text_doc(e@),
                    None => DocView::Null,
                },
            ),
        ],
    )
}

fn branched(v: &BranchedVessel) -> (d: Doc)
    ensures
        d@ == branched_of(*v),
{
    let mut t: Vec<(Doc, Doc)> = empty();
    put(&mut t, "name", text(v.name.as_str()));
    put(&mut t, "live", Doc::Bool(v.live));
    let error: Doc = match &v.fallback_error {
        Some(e) => text(e.as_str()),
        None => Doc::Null,
    };
    put(&mut t, "fallback_error", error);
    assert(crate::doc::member_views(t@) =~= branched_of(*v)->Table_0);
    table(t)
}

pub open spec fn branch_of(o: BranchOutcome) -> DocView {
    DocView::Table(
        seq![
            entry(
                "vessels"@,
                DocView::List(o.vessels@.map_values(|v: BranchedVessel| branched_of(v))),
            ),
            entry("from_memory"@, DocView::Bool(o.from_memory)),
            entry("ms"@, number_doc(o.ms as nat)),
        ],
    )
}

/// What a branch came to.
pub fn branch_outcome(o: &BranchOutcome) -> (d: Doc)
    ensures
        d@ == branch_of(*o),
{
    let mut list: Vec<Doc> = Vec::new();
    let mut i: usize = 0;
    while i < o.vessels.len()
        invariant
            i <= o.vessels@.len(),
            list@.len() == i,
            forall|j: int| 0 <= j < i ==> (#[trigger] list@[j])@ == branched_of(o.vessels@[j]),
        decreases o.vessels@.len() - i,
    {
        list.push(branched(&o.vessels[i]));
        i = i + 1;
    }
    let vessels: Doc = Doc::List(list);
    proof {
        crate::doc::lemma_tree(vessels);
        assert(crate::doc::doc_views(list@) =~= o.vessels@.map_values(
            |v: BranchedVessel| branched_of(v),
        ));
    }
    let mut t: Vec<(Doc, Doc)> = empty();
    put(&mut t, "vessels", vessels);
    put(&mut t, "from_memory", Doc::Bool(o.from_memory));
    put(&mut t, "ms", number(o.ms));
    assert(crate::doc::member_views(t@) =~= branch_of(*o)->Table_0);
    table(t)
}

// What the answers say.

proof fn lemma_member(m: Seq<(DocView, DocView)>, k: Seq<char>, i: int)
    requires
        0 <= i < m.len(),
        m[i].0 == DocView::Str(k),
        forall|j: int| 0 <= j < i ==> (#[trigger] m[j]).0 != DocView::Str(k),
    ensures
        crate::doc::field(DocView::Table(m), k) == m[i].1,
{
    crate::doc::lemma_position(m, DocView::Str(k));
}

/// A vessel in a list is told as it is.
pub proof fn what_is_told_of_a_vessel(s: VesselSummary)
    ensures
        ({
            let d = summary_of(s);
            &&& crate::doc::field(d, "name"@) == DocView::Str(s.name@)
            &&& crate::doc::field(d, "running"@) == DocView::Bool(s.running)
            &&& crate::doc::field(d, "cpus"@) == DocView::Num(crate::text::decimal(s.cpus as nat))
            &&& crate::doc::field(d, "mem_mib"@) == DocView::Num(
                crate::text::decimal(s.mem_mib as nat),
            )
            &&& crate::doc::field(d, "gpu"@) == DocView::Bool(s.gpu)
            &&& crate::doc::field(d, "backend"@) == DocView::Str(s.backend@)
        }),
{
    reveal_strlit("name");
    reveal_strlit("running");
    reveal_strlit("cpus");
    reveal_strlit("mem_mib");
    reveal_strlit("gpu");
    reveal_strlit("backend");
    let m = summary_of(s)->Table_0;
    assert("name"@[0] == 'n' && "running"@[0] == 'r' && "cpus"@[0] == 'c' && "mem_mib"@[0] == 'm'
        && "gpu"@[0] == 'g' && "backend"@[0] == 'b');
    lemma_member(m, "name"@, 0);
    lemma_member(m, "running"@, 1);
    lemma_member(m, "cpus"@, 2);
    lemma_member(m, "mem_mib"@, 3);
    lemma_member(m, "gpu"@, 4);
    lemma_member(m, "backend"@, 5);
}

/// How a vessel came up is told as it was: under which word, whether it was
/// resumed, and how long it took.
pub proof fn what_is_told_of_a_start(word: Seq<char>, s: Started)
    ensures
        ({
            let d = started_of(word, s);
            &&& crate::doc::field(d, "outcome"@) == DocView::Str(word)
            &&& crate::doc::field(d, "resumed"@) == DocView::Bool(s.resumed)
            &&& crate::doc::field(d, "boot_ms"@) == DocView::Num(
                crate::text::decimal(s.boot_ms as nat),
            )
            &&& crate::doc::field(d, "kernel"@) == DocView::Str(s.kernel@)
            &&& crate::doc::field(d, "agent_version"@) == DocView::Str(s.agent_version@)
        }),
        crate::doc::field(start_of(StartOutcome::AlreadyRunning), "outcome"@) == DocView::Str(
            "already_running"@,
        ),
        crate::doc::field(start_of(StartOutcome::Started(s)), "outcome"@) == DocView::Str(
            "started"@,
        ),
{
    reveal_strlit("outcome");
    reveal_strlit("resumed");
    reveal_strlit("boot_ms");
    reveal_strlit("kernel");
    reveal_strlit("agent_version");
    let m = started_of(word, s)->Table_0;
    assert("outcome"@[0] == 'o' && "resumed"@[0] == 'r' && "boot_ms"@[0] == 'b' && "kernel"@[0]
        == 'k' && "agent_version"@[0] == 'a');
    lemma_member(m, "outcome"@, 0);
    lemma_member(m, "resumed"@, 1);
    lemma_member(m, "boot_ms"@, 2);
    lemma_member(m, "kernel"@, 3);
    lemma_member(m, "agent_version"@, 4);
    lemma_member(start_of(StartOutcome::AlreadyRunning)->Table_0, "outcome"@, 0);
    lemma_member(start_of(StartOutcome::Started(s))->Table_0, "outcome"@, 0);
}

/// A snapshot is told as what it is: with memory or of the disks alone, and
/// then why.
pub proof fn what_is_told_of_a_snapshot(o: SnapshotOutcome, i: SnapshotInfo)
    ensures
        o matches SnapshotOutcome::Memory { ms, state_mb } ==> crate::doc::field(
            snapshot_of(o),
            "kind"@,
        ) == DocView::Str("memory"@) && crate::doc::field(snapshot_of(o), "ms"@) == DocView::Num(
            crate::text::decimal(ms as nat),
        ) && crate::doc::field(snapshot_of(o), "state_mb"@) == DocView::Num(
            crate::text::decimal(state_mb as nat),
        ),
        o matches SnapshotOutcome::DiskOnly { ms, reason } ==> crate::doc::field(
            snapshot_of(o),
            "kind"@,
        ) == DocView::Str("disk_only"@) && crate::doc::field(snapshot_of(o), "ms"@) == DocView::Num(
            crate::text::decimal(ms as nat),
        ) && crate::doc::field(snapshot_of(o), "reason"@) == DocView::Str(
            match reason {
                DiskOnlyReason::Requested => "requested"@,
                DiskOnlyReason::BackendUnsupported => "backend_unsupported"@,
                DiskOnlyReason::NotRunning => "not_running"@,
            },
        ),
        crate::doc::field(info_of(i), "label"@) == DocView::Str(i.label@),
        crate::doc::field(info_of(i), "memory"@) == DocView::Bool(i.memory),
{
    reveal_strlit("kind");
    reveal_strlit("ms");
    reveal_strlit("state_mb");
    reveal_strlit("reason");
    reveal_strlit("label");
    reveal_strlit("memory");
    let m = snapshot_of(o)->Table_0;
    assert("kind"@[0] == 'k' && "ms"@[0] == 'm' && "state_mb"@[0] == 's' && "reason"@[0] == 'r');
    assert("label"@[0] == 'l' && "memory"@[0] == 'm');
    lemma_member(m, "kind"@, 0);
    lemma_member(m, "ms"@, 1);
    if o is Memory {
        lemma_member(m, "state_mb"@, 2);
    } else {
        lemma_member(m, "reason"@, 2);
    }
    lemma_member(info_of(i)->Table_0, "label"@, 0);
    lemma_member(info_of(i)->Table_0, "memory"@, 1);
}

/// A roll back is told as what it came to.
pub proof fn what_is_told_of_a_roll_back(o: RestoreOutcome, s: Started)
    ensures
        o is LiveResume ==> crate::doc::field(restore_of(o, Some(s)), "outcome"@) == DocView::Str(
            "live_resume"@,
        ),
        o matches RestoreOutcome::ColdBootFallback { resume_error } ==> crate::doc::field(
            restore_of(o, Some(s)),
            "outcome"@,
        ) == DocView::Str("cold_boot_fallback"@) && crate::doc::field(
            restore_of(o, Some(s)),
            "resume_error"@,
        ) == DocView::Str(resume_error@),
        o matches RestoreOutcome::DiskRestore { restarted } ==> crate::doc::field(
            restore_of(o, Some(s)),
            "outcome"@,
        ) == DocView::Str("disk_restore"@) && crate::doc::field(
            restore_of(o, Some(s)),
            "restarted"@,
        ) == DocView::Bool(restarted),
{
    reveal_strlit("outcome");
    reveal_strlit("resume_error");
    reveal_strlit("restarted");
    assert("outcome"@[0] == 'o' && "resume_error"@[0] == 'r' && "restarted"@[0] == 'r');
    let m = restore_of(o, Some(s))->Table_0;
    lemma_member(m, "outcome"@, 0);
    match o {
        RestoreOutcome::ColdBootFallback { .. } => {
            lemma_member(m, "resume_error"@, 1);
        },
        RestoreOutcome::DiskRestore { .. } => {
            lemma_member(m, "restarted"@, 1);
        },
        _ => {},
    }
}

/// Every branch is told of, in order: its name, whether it resumed, and what
/// went wrong where it booted instead.
pub proof fn what_is_told_of_a_branch(o: BranchOutcome, k: int)
    requires
        0 <= k < o.vessels@.len(),
    ensures
        ({
            let d = branch_of(o);
            let list = crate::doc::items_of(crate::doc::field(d, "vessels"@));
            let v = o.vessels@[k];
            &&& list.len() == o.vessels@.len()
            &&& crate::doc::field(list[k], "name"@) == DocView::Str(v.name@)
            &&& crate::doc::field(list[k], "live"@) == DocView::Bool(v.live)
            &&& crate::doc::field(list[k], "fallback_error"@) == (match v.fallback_error {
                Some(e) => DocView::Str(e@),
                None => DocView::Null,
            })
            &&& crate::doc::field(d, "from_memory"@) == DocView::Bool(o.from_memory)
            &&& crate::doc::field(d, "ms"@) == DocView::Num(crate::text::decimal(o.ms as nat))
        }),
{
    reveal_strlit("vessels");
    reveal_strlit("from_memory");
    reveal_strlit("ms");
    reveal_strlit("name");
    reveal_strlit("live");
    reveal_strlit("fallback_error");
    assert("vessels"@[0] == 'v' && "from_memory"@[0] == 'f' && "ms"@[0] == 'm');
    assert("name"@[0] == 'n' && "live"@[0] == 'l' && "fallback_error"@[0] == 'f');
    let m = branch_of(o)->Table_0;
    lemma_member(m, "vessels"@, 0);
    lemma_member(m, "from_memory"@, 1);
    lemma_member(m, "ms"@, 2);
    let b = branched_of(o.vessels@[k])->Table_0;
    lemma_member(b, "name"@, 0);
    lemma_member(b, "live"@, 1);
    lemma_member(b, "fallback_error"@, 2);
}

} // verus!

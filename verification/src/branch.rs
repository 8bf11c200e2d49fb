//! Branching: new vessels from a snapshot, or from a vessel as it stands.
//!
//! With a count this is the fan-out of a tree search: every branch is booted,
//! or resumed, and fully independent.

use crate::text::owned;
use crate::vessels::{
    dir_of, label_ok, name_problem, snap_dir, snapshot_dir, validate_label, validate_name,
    vessel_dir, VesselError, VesselErrorView,
};
use vstd::prelude::*;

verus! {

#[derive(Debug)]
pub struct BranchedVessel {
    pub name: String,
    /// Woke mid-execution from machine state.
    pub live: bool,
    /// Why the resume failed, where the branch was booted instead.
    pub fallback_error: Option<String>,
}

#[derive(Debug)]
pub struct BranchOutcome {
    pub vessels: Vec<BranchedVessel>,
    pub from_memory: bool,
    pub ms: u64,
}

pub struct BranchedView {
    pub name: Seq<char>,
    pub live: bool,
    pub fallback_error: Option<Seq<char>>,
}

impl View for BranchedVessel {
    type V = BranchedView;

    open spec fn view(&self) -> BranchedView {
        BranchedView {
            name: self.name@,
            live: self.live,
            fallback_error: crate::text::opt_view(self.fallback_error),
        }
    }
}

pub open spec fn branched_views(v: Seq<BranchedVessel>) -> Seq<BranchedView> {
    v.map_values(|b: BranchedVessel| b@)
}

/// Where branches come from.
#[derive(Debug)]
pub struct BranchSource {
    pub dir: String,
    /// The snapshot's directory; none for the vessel as it stands.
    pub snapshot: Option<String>,
}

/// What is wrong with a request to branch, if anything. `described` says
/// whether the vessel's description can be read, `snap_exists` whether the
/// snapshot is there.
pub open spec fn branch_problem(
    home: Seq<char>,
    name: Seq<char>,
    label: Option<Seq<char>>,
    exists: bool,
    described: bool,
    snap_exists: bool,
) -> Option<VesselErrorView> {
    if name_problem(name) is Some {
        name_problem(name)
    } else if !exists {
        Some(VesselErrorView::NoVessel { name })
    } else if !described {
        Some(VesselErrorView::NoSpec { dir: vessel_dir(home, name) })
    } else {
        match label {
            None => None,
            Some(l) => if !label_ok(l) {
                Some(VesselErrorView::BadLabel { label: l })
            } else if !snap_exists {
                Some(VesselErrorView::NoSnapshot { name, label: l })
            } else {
                None
            },
        }
    }
}

/// Where branches come from, or why there can be none.
pub open spec fn source_found(
    home: Seq<char>,
    name: Seq<char>,
    label: Option<Seq<char>>,
    there: bool,
    described: bool,
    snap_exists: bool,
    r: Result<BranchSource, VesselError>,
) -> bool {
    let p = branch_problem(
        home,
        name,
        label,
        there,
        described,
        snap_exists,
    );
    match r {
        Ok(s) => p is None && s.dir@ == vessel_dir(home, name)
            && crate::text::opt_view(s.snapshot) == (match label {
            Some(l) => Some(snapshot_dir(vessel_dir(home, name), l)),
            None => None,
        }),
        Err(e) => p == Some(e@),
    }
}

/// Where the branches of a request come from.
pub fn branch(
    home: &str,
    name: &str,
    label: &Option<String>,
    exists: bool,
    described: bool,
    snap_exists: bool,
) -> (r: Result<BranchSource, VesselError>)
    ensures
        source_found(
            home@,
            name@,
            crate::text::opt_view(*label),
            exists,
            described,
            snap_exists,
            r,
        ),
{
    let dir: String = match dir_of(home, name) {
        Ok(d) => d,
        Err(e) => {
            return Err(e);
        },
    };
    if !exists {
        return Err(VesselError::NoVessel { name: owned(name) });
    }
    if !described {
        return Err(VesselError::NoSpec { dir });
    }
    match label {
        None => Ok(BranchSource { dir, snapshot: None }),
        Some(l) => {
            match validate_label(l.as_str()) {
                Err(e) => {
                    return Err(e);
                },
                Ok(()) => {},
            }
            if !snap_exists {
                return Err(
                    VesselError::NoSnapshot { name: owned(name), label: owned(l.as_str()) },
                );
            }
            let sdir: String = snap_dir(dir.as_str(), l.as_str());
            Ok(BranchSource { dir, snapshot: Some(sdir) })
        },
    }
}

/// What to do next. The branch in question is the one that the machine is at.
#[derive(Debug)]
pub enum BranchAction {
    /// Stop the source vessel.
    StopSource,
    /// Clone the source's disks into a transient directory.
    CloneSource,
    /// Start the source vessel again.
    StartSource,
    /// See whether a vessel of the branch's name exists.
    LookUp(String),
    /// Create the branch: directory, disks, description.
    Place(String),
    /// Start the branch from the machine state.
    Resume(String),
    /// Start the branch.
    Start(String),
    /// Remove the transient directory; what comes of that is of no account.
    RemoveSource,
    Finish,
    Fail(VesselError),
}

/// How a step went.
#[derive(Debug)]
pub enum BranchEvent {
    Done,
    /// The name is taken.
    Exists,
    Failed(String),
}

pub enum BranchDo {
    StopSource,
    CloneSource,
    StartSource,
    LookUp(Seq<char>),
    Place(Seq<char>),
    Resume(Seq<char>),
    Start(Seq<char>),
    RemoveSource,
    Finish,
    Fail(VesselErrorView),
}

pub enum BranchSaw {
    Done,
    Exists,
    Failed(Seq<char>),
}

impl View for BranchAction {
    type V = BranchDo;

    open spec fn view(&self) -> BranchDo {
        match self {
            BranchAction::StopSource => BranchDo::StopSource,
            BranchAction::CloneSource => BranchDo::CloneSource,
            BranchAction::StartSource => BranchDo::StartSource,
            BranchAction::LookUp(n) => BranchDo::LookUp(n@),
            BranchAction::Place(n) => BranchDo::Place(n@),
            BranchAction::Resume(n) => BranchDo::Resume(n@),
            BranchAction::Start(n) => BranchDo::Start(n@),
            BranchAction::RemoveSource => BranchDo::RemoveSource,
            BranchAction::Finish => BranchDo::Finish,
            BranchAction::Fail(e) => BranchDo::Fail(e@),
        }
    }
}

impl View for BranchEvent {
    type V = BranchSaw;

    open spec fn view(&self) -> BranchSaw {
        match self {
            BranchEvent::Done => BranchSaw::Done,
            BranchEvent::Exists => BranchSaw::Exists,
            BranchEvent::Failed(e) => BranchSaw::Failed(e@),
        }
    }
}

#[derive(Debug, Clone, Copy, PartialEq, Eq, Structural)]
pub enum BranchAt {
    Begin,
    StoppingSource,
    CloningSource,
    StartingSource,
    LookingUp,
    Placing,
    Resuming,
    ColdBooting,
    Starting,
    CleaningUp,
    End,
}

/// Branches being made.
#[derive(Debug)]
pub struct BranchMachine {
    labelled: bool,
    live: bool,
    was_running: bool,
    names: Vec<String>,
    i: usize,
    done: Vec<BranchedVessel>,
    at: BranchAt,
    transient: bool,
    resume_error: String,
    error: Option<VesselError>,
}

/// The machine as its mathematical content. `transient` says that a transient
/// clone of the source is there to be removed.
pub struct BranchState {
    pub labelled: bool,
    pub live: bool,
    pub was_running: bool,
    pub names: Seq<Seq<char>>,
    pub i: int,
    pub done: Seq<BranchedView>,
    pub at: BranchAt,
    pub transient: bool,
    pub resume_error: Seq<char>,
    pub error: Option<VesselErrorView>,
}

impl View for BranchMachine {
    type V = BranchState;

    closed spec fn view(&self) -> BranchState {
        BranchState {
            labelled: self.labelled,
            live: self.live,
            was_running: self.was_running,
            names: crate::text::views(self.names@),
            i: self.i as int,
            done: branched_views(self.done@),
            at: self.at,
            transient: self.transient,
            resume_error: self.resume_error@,
            error: match self.error {
                Some(e) => Some(e@),
                None => None,
            },
        }
    }
}

impl BranchState {
    pub open spec fn to(self, at: BranchAt) -> BranchState {
        BranchState { at, ..self }
    }

    /// The branch that the machine is at.
    pub open spec fn name(self) -> Seq<char> {
        self.names[self.i]
    }

    pub open spec fn valid(self) -> bool {
        &&& 0 <= self.i <= self.names.len()
        &&& (self.at == BranchAt::LookingUp || self.at == BranchAt::Placing || self.at
            == BranchAt::Resuming || self.at == BranchAt::ColdBooting || self.at
            == BranchAt::Starting) ==> self.i < self.names.len()
        &&& self.done.len() == self.i
    }

    /// End in failure, once a transient clone is removed.
    pub open spec fn failing(self, e: VesselErrorView) -> (BranchState, BranchDo) {
        if self.transient {
            (BranchState { at: BranchAt::CleaningUp, error: Some(e), ..self }, BranchDo::RemoveSource)
        } else {
            (self.to(BranchAt::End), BranchDo::Fail(e))
        }
    }

    /// On to the branch that is next, or to the end.
    pub open spec fn onward(self) -> (BranchState, BranchDo) {
        if self.i >= self.names.len() {
            if self.transient {
                (self.to(BranchAt::CleaningUp), BranchDo::RemoveSource)
            } else {
                (self.to(BranchAt::End), BranchDo::Finish)
            }
        } else if name_problem(self.name()) is Some {
            self.failing(name_problem(self.name())->0)
        } else {
            (self.to(BranchAt::LookingUp), BranchDo::LookUp(self.name()))
        }
    }

    /// The branch that the machine is at is up.
    pub open spec fn up(self, live: bool, fallback_error: Option<Seq<char>>) -> (
        BranchState,
        BranchDo,
    ) {
        BranchState {
            i: self.i + 1,
            done: self.done.push(BranchedView { name: self.name(), live, fallback_error }),
            ..self
        }.onward()
    }

    /// The next step. Without a snapshot the source is cloned first, stopped
    /// around that if it runs. Then each branch in turn: its name must be one
    /// and free; it is placed, then resumed, booting where that fails, or
    /// booted.
    pub open spec fn next(self, saw: BranchSaw) -> (BranchState, BranchDo) {
        let failed = VesselErrorView::Failed { what: saw->Failed_0 };
        match self.at {
            BranchAt::Begin => if self.labelled {
                self.onward()
            } else if self.was_running {
                (self.to(BranchAt::StoppingSource), BranchDo::StopSource)
            } else {
                (self.to(BranchAt::CloningSource), BranchDo::CloneSource)
            },
            BranchAt::StoppingSource => if saw is Failed {
                self.failing(failed)
            } else {
                (self.to(BranchAt::CloningSource), BranchDo::CloneSource)
            },
            BranchAt::CloningSource => if saw is Failed {
                self.failing(failed)
            } else if self.was_running {
                (self.to(BranchAt::StartingSource), BranchDo::StartSource)
            } else {
                BranchState { transient: true, ..self }.onward()
            },
            BranchAt::StartingSource => if saw is Failed {
                self.failing(failed)
            } else {
                BranchState { transient: true, ..self }.onward()
            },
            BranchAt::LookingUp => if saw is Failed {
                self.failing(failed)
            } else if saw is Exists {
                self.failing(VesselErrorView::Exists { name: self.name() })
            } else {
                (self.to(BranchAt::Placing), BranchDo::Place(self.name()))
            },
            BranchAt::Placing => if saw is Failed {
                self.failing(failed)
            } else if self.live {
                (self.to(BranchAt::Resuming), BranchDo::Resume(self.name()))
            } else {
                (self.to(BranchAt::Starting), BranchDo::Start(self.name()))
            },
            BranchAt::Resuming => if saw is Failed {
                (
                    BranchState {
                        at: BranchAt::ColdBooting,
                        resume_error: saw->Failed_0,
                        ..self
                    },
                    BranchDo::Start(self.name()),
                )
            } else {
                self.up(true, None)
            },
            BranchAt::ColdBooting => if saw is Failed {
                self.failing(failed)
            } else {
                self.up(false, Some(self.resume_error))
            },
            BranchAt::Starting => if saw is Failed {
                self.failing(failed)
            } else {
                self.up(false, None)
            },
            BranchAt::CleaningUp => match self.error {
                Some(e) => (
                    BranchState { at: BranchAt::End, error: None, ..self },
                    BranchDo::Fail(e),
                ),
                None => (self.to(BranchAt::End), BranchDo::Finish),
            },
            BranchAt::End => (self, BranchDo::Finish),
        }
    }
}

impl BranchMachine {
    /// Branches of the given names: from a snapshot or not, with machine state
    /// or without, of a vessel that runs or not.
    pub fn new(labelled: bool, live: bool, was_running: bool, names: Vec<String>) -> (m:
        BranchMachine)
        ensures
            m@ == (BranchState {
                labelled,
                live,
                was_running,
                names: crate::text::views(names@),
                i: 0,
                done: Seq::empty(),
                at: BranchAt::Begin,
                transient: false,
                resume_error: Seq::empty(),
                error: None,
            }),
            m@ == fresh(labelled, live, was_running, crate::text::views(names@)),
            m@.valid(),
    {
        let m = BranchMachine {
            labelled,
            live,
            was_running,
            names,
            i: 0,
            done: Vec::new(),
            at: BranchAt::Begin,
            transient: false,
            resume_error: String::new(),
            error: None,
        };
        assert(m@.done =~= Seq::empty());
        m
    }

    fn failing(&mut self, e: VesselError) -> (action: BranchAction)
        ensures
            (final(self)@, action@) == old(self)@.failing(e@),
    {
        if self.transient {
            self.at = BranchAt::CleaningUp;
            self.error = Some(e);
            BranchAction::RemoveSource
        } else {
            self.at = BranchAt::End;
            BranchAction::Fail(e)
        }
    }

    fn onward(&mut self) -> (action: BranchAction)
        ensures
            (final(self)@, action@) == old(self)@.onward(),
    {
        if self.i >= self.names.len() {
            if self.transient {
                self.at = BranchAt::CleaningUp;
                return BranchAction::RemoveSource;
            }
            self.at = BranchAt::End;
            return BranchAction::Finish;
        }
        let name: String = owned(self.names[self.i].as_str());
        match validate_name(name.as_str()) {
            Err(e) => self.failing(e),
            Ok(()) => {
                self.at = BranchAt::LookingUp;
                BranchAction::LookUp(name)
            },
        }
    }

    fn up(&mut self, live: bool, fallback_error: Option<String>) -> (action: BranchAction)
        requires
            old(self)@.i < old(self)@.names.len(),
        ensures
            (final(self)@, action@) == old(self)@.up(live, crate::text::opt_view(fallback_error)),
    {
        let ghost before = self@;
        let name: String = owned(self.names[self.i].as_str());
        let b = BranchedVessel { name, live, fallback_error };
        let ghost bv = b@;
        self.done.push(b);
        let n: usize = self.names.len();
        assert(self.i < n);
        self.i = self.i + 1;
        proof {
            assert(self@.done =~= before.done.push(bv));
            assert(bv.name == before.name());
        }
        self.onward()
    }

    /// What to do next, given how the last step went.
    pub fn next(&mut self, event: BranchEvent) -> (action: BranchAction)
        requires
            old(self)@.valid(),
        ensures
            (final(self)@, action@) == old(self)@.next(event@),
            final(self)@.valid(),
    {
        match self.at {
            BranchAt::Begin => {
                if self.labelled {
                    self.onward()
                } else if self.was_running {
                    self.at = BranchAt::StoppingSource;
                    BranchAction::StopSource
                } else {
                    self.at = BranchAt::CloningSource;
                    BranchAction::CloneSource
                }
            },
            BranchAt::StoppingSource => match event {
                BranchEvent::Failed(what) => self.failing(VesselError::Failed { what }),
                _ => {
                    self.at = BranchAt::CloningSource;
                    BranchAction::CloneSource
                },
            },
            BranchAt::CloningSource => match event {
                BranchEvent::Failed(what) => self.failing(VesselError::Failed { what }),
                _ => {
                    if self.was_running {
                        self.at = BranchAt::StartingSource;
                        BranchAction::StartSource
                    } else {
                        self.transient = true;
                        self.onward()
                    }
                },
            },
            BranchAt::StartingSource => match event {
                BranchEvent::Failed(what) => self.failing(VesselError::Failed { what }),
                _ => {
                    self.transient = true;
                    self.onward()
                },
            },
            BranchAt::LookingUp => match event {
                BranchEvent::Failed(what) => self.failing(VesselError::Failed { what }),
                BranchEvent::Exists => {
                    let name: String = owned(self.names[self.i].as_str());
                    self.failing(VesselError::Exists { name })
                },
                BranchEvent::Done => {
                    self.at = BranchAt::Placing;
                    BranchAction::Place(owned(self.names[self.i].as_str()))
                },
            },
            BranchAt::Placing => match event {
                BranchEvent::Failed(what) => self.failing(VesselError::Failed { what }),
                _ => {
                    let name: String = owned(self.names[self.i].as_str());
                    if self.live {
                        self.at = BranchAt::Resuming;
                        BranchAction::Resume(name)
                    } else {
                        self.at = BranchAt::Starting;
                        BranchAction::Start(name)
                    }
                },
            },
            BranchAt::Resuming => match event {
                BranchEvent::Failed(e) => {
                    self.at = BranchAt::ColdBooting;
                    self.resume_error = e;
                    BranchAction::Start(owned(self.names[self.i].as_str()))
                },
                _ => self.up(true, None),
            },
            BranchAt::ColdBooting => match event {
                BranchEvent::Failed(what) => self.failing(VesselError::Failed { what }),
                _ => {
                    let e: String = owned(self.resume_error.as_str());
                    self.up(false, Some(e))
                },
            },
            BranchAt::Starting => match event {
                BranchEvent::Failed(what) => self.failing(VesselError::Failed { what }),
                _ => self.up(false, None),
            },
            BranchAt::CleaningUp => {
                self.at = BranchAt::End;
                match self.error.take() {
                    Some(e) => BranchAction::Fail(e),
                    None => BranchAction::Finish,
                }
            },
            BranchAt::End => BranchAction::Finish,
        }
    }

    /// The branches that are up.
    pub fn finish(self, ms: u64) -> (o: BranchOutcome)
        ensures
            branched_views(o.vessels@) == self@.done,
            o.from_memory == self@.live,
            o.ms == ms,
    {
        BranchOutcome { vessels: self.done, from_memory: self.live, ms }
    }
}

/// Branches come up in order: at any time those that are up are the first of
/// the names.
pub proof fn branches_come_up_in_order(s: BranchState, saw: BranchSaw)
    requires
        s.valid(),
        forall|k: int| 0 <= k < s.i ==> (#[trigger] s.done[k]).name == s.names[k],
    ensures
        s.next(saw).0.valid(),
        s.next(saw).0.names == s.names,
        s.i <= s.next(saw).0.i <= s.i + 1,
        forall|k: int|
            0 <= k < s.next(saw).0.i ==> (#[trigger] s.next(saw).0.done[k]).name == s.names[k],
{
}

/// The machine finishes only with every branch up and, where the source was
/// cloned, with that clone removed.
pub proof fn finished_means_all_up(s: BranchState, saw: BranchSaw)
    requires
        s.valid(),
        s.at != BranchAt::End,
        s.at == BranchAt::CleaningUp ==> (s.error is Some || s.i == s.names.len()),
        s.next(saw).1 is Finish,
    ensures
        s.next(saw).0.done.len() == s.names.len(),
        s.transient ==> s.at == BranchAt::CleaningUp,
{
}

/// A source that ran is started again before any branch is made of it, and a
/// snapshot is never touched.
pub proof fn source_is_left_as_it_was(s: BranchState, saw: BranchSaw)
    requires
        s.valid(),
        s.next(saw).1 is LookUp,
        s.at == BranchAt::Begin || s.at == BranchAt::CloningSource || s.at
            == BranchAt::StoppingSource || s.at == BranchAt::StartingSource,
    ensures
        s.at == BranchAt::Begin ==> s.labelled,
        s.at == BranchAt::CloningSource ==> !s.was_running,
        s.at != BranchAt::StoppingSource,
{
}

// How branches are made, from their beginning to their end.

/// The steps that a machine asks for where the earlier ones went as `saws` say;
/// the first of those only gets it going.
pub open spec fn run(s: BranchState, saws: Seq<BranchSaw>) -> (BranchState, Seq<BranchDo>)
    decreases saws.len(),
{
    if saws.len() == 0 {
        (s, Seq::empty())
    } else {
        let (t, dos) = run(s, saws.drop_last());
        let (u, a) = t.next(saws.last());
        (u, dos.push(a))
    }
}

proof fn lemma_run_concat(s: BranchState, a: Seq<BranchSaw>, b: Seq<BranchSaw>)
    ensures
        run(s, a + b).0 == run(run(s, a).0, b).0,
        run(s, a + b).1 == run(s, a).1 + run(run(s, a).0, b).1,
    decreases b.len(),
{
    if b.len() == 0 {
        assert(a + b =~= a);
        assert(run(s, a).1 + run(run(s, a).0, b).1 =~= run(s, a).1);
    } else {
        assert((a + b).drop_last() =~= a + b.drop_last());
        assert((a + b).last() == b.last());
        lemma_run_concat(s, a, b.drop_last());
        let t = run(s, a).0;
        assert(run(s, a + b).1 =~= run(s, a).1 + run(t, b).1);
    }
}

proof fn lemma_run_one(s: BranchState, saw: BranchSaw)
    ensures
        run(s, seq![saw]) == (s.next(saw).0, seq![s.next(saw).1]),
{
    assert(seq![saw].drop_last() =~= Seq::empty());
    assert(run(s, seq![saw].drop_last()) == (s, Seq::<BranchDo>::empty()));
    assert(Seq::<BranchDo>::empty().push(s.next(saw).1) =~= seq![s.next(saw).1]);
}

proof fn lemma_run_first(s: BranchState, saw: BranchSaw, rest: Seq<BranchSaw>)
    ensures
        run(s, seq![saw] + rest).0 == run(s.next(saw).0, rest).0,
        run(s, seq![saw] + rest).1 == seq![s.next(saw).1] + run(s.next(saw).0, rest).1,
{
    lemma_run_one(s, saw);
    lemma_run_concat(s, seq![saw], rest);
}

/// What happens to the source before the first branch: nothing to a snapshot;
/// a vessel is cloned, and one that runs is down for that time only.
pub open spec fn source_steps(labelled: bool, was_running: bool) -> Seq<BranchDo> {
    if labelled {
        Seq::empty()
    } else if was_running {
        seq![BranchDo::StopSource, BranchDo::CloneSource, BranchDo::StartSource]
    } else {
        seq![BranchDo::CloneSource]
    }
}

/// What happens to one branch that comes up: it is looked up, made, then resumed
/// from machine state where there is some, and started where there is none or
/// where the resume failed with these words.
pub open spec fn branch_steps(name: Seq<char>, live: bool, refused: Option<Seq<char>>) -> Seq<
    BranchDo,
> {
    seq![BranchDo::LookUp(name), BranchDo::Place(name)] + (if !live {
        seq![BranchDo::Start(name)]
    } else if refused is None {
        seq![BranchDo::Resume(name)]
    } else {
        seq![BranchDo::Resume(name), BranchDo::Start(name)]
    })
}

/// How the steps of one branch went.
pub open spec fn branch_saws(refused: Option<Seq<char>>) -> Seq<BranchSaw> {
    match refused {
        None => seq![BranchSaw::Done, BranchSaw::Done, BranchSaw::Done],
        Some(e) => seq![
            BranchSaw::Done,
            BranchSaw::Done,
            BranchSaw::Failed(e),
            BranchSaw::Done,
        ],
    }
}

/// The steps of the branches from the one at `i`.
pub open spec fn steps_from(
    names: Seq<Seq<char>>,
    live: bool,
    refused: Seq<Option<Seq<char>>>,
    i: int,
) -> Seq<BranchDo>
    decreases names.len() - i,
{
    if i >= names.len() {
        Seq::empty()
    } else {
        branch_steps(names[i], live, refused[i]) + steps_from(names, live, refused, i + 1)
    }
}

pub open spec fn saws_from(refused: Seq<Option<Seq<char>>>, i: int) -> Seq<BranchSaw>
    decreases refused.len() - i,
{
    if i >= refused.len() {
        Seq::empty()
    } else {
        branch_saws(refused[i]) + saws_from(refused, i + 1)
    }
}

/// The end of it: a clone of the source is removed.
pub open spec fn closing_steps(labelled: bool) -> Seq<BranchDo> {
    if labelled {
        seq![BranchDo::Finish]
    } else {
        seq![BranchDo::RemoveSource, BranchDo::Finish]
    }
}

pub open spec fn closing_saws(labelled: bool) -> Seq<BranchSaw> {
    if labelled {
        Seq::empty()
    } else {
        seq![BranchSaw::Done]
    }
}

/// What is told of branches that are up: a branch woke from machine state, or
/// why it did not.
pub open spec fn told_of(names: Seq<Seq<char>>, live: bool, refused: Seq<Option<Seq<char>>>) -> Seq<
    BranchedView,
> {
    Seq::new(
        names.len(),
        |k: int|
            BranchedView {
                name: names[k],
                live: live && refused[k] is None,
                fallback_error: refused[k],
            },
    )
}

/// A machine that has not begun.
pub open spec fn fresh(labelled: bool, live: bool, was_running: bool, names: Seq<Seq<char>>) -> BranchState {
    BranchState {
        labelled,
        live,
        was_running,
        names,
        i: 0,
        done: Seq::empty(),
        at: BranchAt::Begin,
        transient: false,
        resume_error: Seq::empty(),
        error: None,
    }
}

proof fn lemma_branch(s: BranchState, refused: Option<Seq<char>>)
    requires
        s.valid(),
        s.at == BranchAt::LookingUp,
        !s.live ==> refused is None,
    ensures
        ({
            let told = BranchedView {
                name: s.name(),
                live: s.live && refused is None,
                fallback_error: refused,
            };
            let (t, dos) = run(s, branch_saws(refused));
            let b = BranchState {
                i: s.i + 1,
                done: s.done.push(told),
                at: t.at,
                resume_error: t.resume_error,
                ..s
            };
            &&& dos.len() == branch_saws(refused).len()
            &&& seq![BranchDo::LookUp(s.name())] + dos.drop_last() == branch_steps(
                s.name(),
                s.live,
                refused,
            )
            &&& t == BranchState { error: t.error, ..b }
            &&& (t, dos.last()) == BranchState {
                at: if refused is Some {
                    BranchAt::ColdBooting
                } else if s.live {
                    BranchAt::Resuming
                } else {
                    BranchAt::Starting
                },
                error: s.error,
                ..b
            }.onward()
        }),
{
    let d = BranchSaw::Done;
    let (s1, a1) = s.next(d);
    let (s2, a2) = s1.next(d);
    match refused {
        None => {
            let (s3, a3) = s2.next(d);
            assert(seq![d, d, d] =~= seq![d] + (seq![d] + seq![d]));
            lemma_run_first(s, d, seq![d] + seq![d]);
            lemma_run_first(s1, d, seq![d]);
            lemma_run_one(s2, d);
            assert(run(s, branch_saws(refused)).1 =~= seq![a1, a2, a3]);
            assert(seq![BranchDo::LookUp(s.name())] + seq![a1, a2, a3].drop_last()
                =~= branch_steps(s.name(), s.live, refused));
        },
        Some(e) => {
            let f = BranchSaw::Failed(e);
            let (s3, a3) = s2.next(f);
            let (s4, a4) = s3.next(d);
            assert(seq![d, d, f, d] =~= seq![d] + (seq![d] + (seq![f] + seq![d])));
            lemma_run_first(s, d, seq![d] + (seq![f] + seq![d]));
            lemma_run_first(s1, d, seq![f] + seq![d]);
            lemma_run_first(s2, f, seq![d]);
            lemma_run_one(s3, d);
            assert(run(s, branch_saws(refused)).1 =~= seq![a1, a2, a3, a4]);
            assert(seq![BranchDo::LookUp(s.name())] + seq![a1, a2, a3, a4].drop_last()
                =~= branch_steps(s.name(), s.live, refused));
        },
    }
}

proof fn lemma_branches(s: BranchState, refused: Seq<Option<Seq<char>>>)
    requires
        s.valid(),
        s.at == BranchAt::LookingUp,
        s.error is None,
        s.transient == !s.labelled,
        refused.len() == s.names.len(),
        !s.live ==> forall|k: int| 0 <= k < refused.len() ==> (#[trigger] refused[k]) is None,
        forall|k: int| 0 <= k < s.names.len() ==> name_problem(#[trigger] s.names[k]) is None,
        s.done == told_of(s.names, s.live, refused).take(s.i),
    ensures
        ({
            let (t, dos) = run(s, saws_from(refused, s.i) + closing_saws(s.labelled));
            &&& seq![BranchDo::LookUp(s.name())] + dos == steps_from(
                s.names,
                s.live,
                refused,
                s.i,
            ) + closing_steps(s.labelled)
            &&& t.done == told_of(s.names, s.live, refused)
        }),
    decreases s.names.len() - s.i,
{
    let all = told_of(s.names, s.live, refused);
    let head = branch_saws(refused[s.i]);
    let close = closing_saws(s.labelled);
    let rest = saws_from(refused, s.i + 1) + close;
    let end = closing_steps(s.labelled);
    let first = seq![BranchDo::LookUp(s.name())];
    let steps = branch_steps(s.name(), s.live, refused[s.i]);
    let more = steps_from(s.names, s.live, refused, s.i + 1);
    lemma_branch(s, refused[s.i]);
    lemma_run_concat(s, head, rest);
    assert(saws_from(refused, s.i) + close =~= head + rest);
    let (t, dos) = run(s, head);
    assert(t.done =~= all.take(s.i + 1));
    let last = seq![dos.last()];
    assert(steps + more + end =~= steps + (more + end));
    assert(last + run(t, rest).1 == more + end && run(t, rest).0.done == all) by {
        if s.i + 1 < s.names.len() {
            assert(name_problem(s.names[s.i + 1]) is None);
            lemma_branches(t, refused);
        } else {
            assert(more =~= Seq::empty());
            assert(rest =~= close);
            assert(all.take(s.i + 1) =~= all);
            if s.labelled {
                assert(last + run(t, rest).1 =~= more + end);
            } else {
                lemma_run_one(t, BranchSaw::Done);
                assert(last + run(t, rest).1 =~= more + end);
            }
        }
    }
    lemma_regroup(first, dos, run(t, rest).1);
}

proof fn lemma_regroup(first: Seq<BranchDo>, dos: Seq<BranchDo>, rest: Seq<BranchDo>)
    requires
        dos.len() > 0,
    ensures
        first + (dos + rest) == (first + dos.drop_last()) + (seq![dos.last()] + rest),
{
    assert(first + (dos + rest) =~= (first + dos.drop_last()) + (seq![dos.last()] + rest));
}

/// The whole of a branching in which every branch comes up, whichever of the
/// resumes fail: the source is cloned first unless it is a snapshot; then each
/// branch in the order of the names is looked up, made, and resumed or started;
/// then the clone is removed. Every branch that is told of was resumed or
/// started, and is told of as what it was.
pub proof fn every_branch_is_made_and_brought_up(
    labelled: bool,
    live: bool,
    was_running: bool,
    names: Seq<Seq<char>>,
    refused: Seq<Option<Seq<char>>>,
)
    requires
        names.len() > 0,
        refused.len() == names.len(),
        !live ==> forall|k: int| 0 <= k < refused.len() ==> (#[trigger] refused[k]) is None,
        forall|k: int| 0 <= k < names.len() ==> name_problem(#[trigger] names[k]) is None,
    ensures
        ({
            let before = source_steps(labelled, was_running);
            let saws = Seq::new(1 + before.len(), |k: int| BranchSaw::Done) + saws_from(refused, 0)
                + closing_saws(labelled);
            let (t, dos) = run(fresh(labelled, live, was_running, names), saws);
            &&& dos == before + steps_from(names, live, refused, 0) + closing_steps(labelled)
            &&& t.done == told_of(names, live, refused)
        }),
{
    let d = BranchSaw::Done;
    let s = fresh(labelled, live, was_running, names);
    let before = source_steps(labelled, was_running);
    let start = Seq::new(1 + before.len(), |k: int| BranchSaw::Done);
    let rest = saws_from(refused, 0) + closing_saws(labelled);
    let (s1, a1) = s.next(d);
    let (s2, a2) = s1.next(d);
    let (s3, a3) = s2.next(d);
    let (s4, a4) = s3.next(d);
    lemma_run_concat(s, start, rest);
    assert(start + saws_from(refused, 0) + closing_saws(labelled) =~= start + rest);
    assert(told_of(names, live, refused).take(0) =~= Seq::empty());
    lemma_run_one(s, d);
    lemma_run_one(s1, d);
    lemma_run_one(s2, d);
    lemma_run_one(s3, d);
    if labelled {
        assert(start =~= seq![d]);
        lemma_branches(s1, refused);
        assert(seq![a1] + run(s1, rest).1 =~= before + steps_from(names, live, refused, 0)
            + closing_steps(labelled));
    } else if was_running {
        assert(start =~= seq![d] + (seq![d] + (seq![d] + seq![d])));
        lemma_run_first(s, d, seq![d] + (seq![d] + seq![d]));
        lemma_run_first(s1, d, seq![d] + seq![d]);
        lemma_run_first(s2, d, seq![d]);
        assert(run(s, start).1 =~= before.push(a4));
        lemma_branches(s4, refused);
        assert(before.push(a4) + run(s4, rest).1 =~= before + (seq![a4] + run(s4, rest).1));
        assert(before + (steps_from(names, live, refused, 0) + closing_steps(labelled)) =~= before
            + steps_from(names, live, refused, 0) + closing_steps(labelled));
    } else {
        assert(start =~= seq![d] + seq![d]);
        lemma_run_first(s, d, seq![d]);
        assert(run(s, start).1 =~= before.push(a2));
        lemma_branches(s2, refused);
        assert(before.push(a2) + run(s2, rest).1 =~= before + (seq![a2] + run(s2, rest).1));
        assert(before + (steps_from(names, live, refused, 0) + closing_steps(labelled)) =~= before
            + steps_from(names, live, refused, 0) + closing_steps(labelled));
    }
}

/// The step whose outcome the machine waits for.
pub open spec fn asked(s: BranchState) -> Option<BranchDo> {
    match s.at {
        BranchAt::Begin => None,
        BranchAt::StoppingSource => Some(BranchDo::StopSource),
        BranchAt::CloningSource => Some(BranchDo::CloneSource),
        BranchAt::StartingSource => Some(BranchDo::StartSource),
        BranchAt::LookingUp => Some(BranchDo::LookUp(s.name())),
        BranchAt::Placing => Some(BranchDo::Place(s.name())),
        BranchAt::Resuming => Some(BranchDo::Resume(s.name())),
        BranchAt::ColdBooting => Some(BranchDo::Start(s.name())),
        BranchAt::Starting => Some(BranchDo::Start(s.name())),
        BranchAt::CleaningUp => Some(BranchDo::RemoveSource),
        BranchAt::End => None,
    }
}

/// What the machine waits for is what it asked for last, and it has ended where
/// it said so.
pub proof fn the_machine_waits_for_what_it_asked(s: BranchState, saw: BranchSaw)
    requires
        s.valid(),
        s.at != BranchAt::End,
    ensures
        ({
            let (t, a) = s.next(saw);
            if a is Finish || a is Fail {
                t.at == BranchAt::End
            } else {
                asked(t) == Some(a)
            }
        }),
{
}

/// A branch counts as up exactly where a resume or a start of it succeeded, and
/// is told of as what it was; then it is the turn of the next name.
pub proof fn a_branch_is_up_once_started(s: BranchState, saw: BranchSaw)
    requires
        s.valid(),
        s.at != BranchAt::End,
    ensures
        ({
            let (t, a) = s.next(saw);
            let n = s.name();
            let brought = asked(s) == Some(BranchDo::Resume(n)) || asked(s) == Some(
                BranchDo::Start(n),
            );
            if brought && !(saw is Failed) {
                &&& t.i == s.i + 1
                &&& t.done == s.done.push(
                    BranchedView {
                        name: n,
                        live: asked(s) is Some && asked(s)->0 is Resume,
                        fallback_error: if s.at == BranchAt::ColdBooting {
                            Some(s.resume_error)
                        } else {
                            None
                        },
                    },
                )
                &&& t.i < t.names.len() && name_problem(t.names[t.i]) is None ==> a
                    == BranchDo::LookUp(t.names[t.i])
                &&& t.i == t.names.len() ==> a == (if s.transient {
                    BranchDo::RemoveSource
                } else {
                    BranchDo::Finish
                })
            } else {
                t.i == s.i && t.done == s.done
            }
        }),
{
}

/// A branch that was made is brought up next: resumed where there is machine
/// state, started where there is none; one whose resume failed is started, and
/// the words of that failure are kept.
pub proof fn a_made_branch_is_brought_up(s: BranchState, e: Seq<char>)
    requires
        s.valid(),
    ensures
        asked(s) == Some(BranchDo::Place(s.name())) ==> s.next(BranchSaw::Done).1 == (if s.live {
            BranchDo::Resume(s.name())
        } else {
            BranchDo::Start(s.name())
        }),
        asked(s) == Some(BranchDo::Resume(s.name())) ==> ({
            let (t, a) = s.next(BranchSaw::Failed(e));
            &&& a == BranchDo::Start(s.name())
            &&& t.next(BranchSaw::Done).0.done.last().fallback_error == Some(e)
            &&& !t.next(BranchSaw::Done).0.done.last().live
        }),
{
}

/// A failed step is the end of it, but for a resume, and so is a name that is
/// taken: nothing is done any more but to remove a clone of the source, and the
/// failure is the one that was seen.
pub proof fn a_failure_ends_it(s: BranchState, e: Seq<char>, later: BranchSaw)
    requires
        s.valid(),
        asked(s) is Some,
        !(asked(s)->0 is Resume),
        !(asked(s)->0 is RemoveSource),
    ensures
        ({
            let (t, a) = s.next(BranchSaw::Failed(e));
            let why = VesselErrorView::Failed { what: e };
            if s.transient {
                a == BranchDo::RemoveSource && t.next(later).1 == BranchDo::Fail(why)
            } else {
                a == BranchDo::Fail(why)
            }
        }),
        asked(s)->0 is LookUp ==> ({
            let (t, a) = s.next(BranchSaw::Exists);
            let why = VesselErrorView::Exists { name: s.name() };
            if s.transient {
                a == BranchDo::RemoveSource && t.next(later).1 == BranchDo::Fail(why)
            } else {
                a == BranchDo::Fail(why)
            }
        }),
{
}

/// A name that no vessel may have is the end of it before anything of that name
/// is made.
pub proof fn a_bad_name_is_never_made(s: BranchState, saw: BranchSaw, later: BranchSaw)
    requires
        s.valid(),
        s.at != BranchAt::End,
    ensures
        ({
            let (t, a) = s.next(saw);
            &&& a is LookUp ==> name_problem(a->LookUp_0) is None && a->LookUp_0 == t.names[t.i]
            &&& t.i > s.i && t.i < t.names.len() && name_problem(t.names[t.i]) is Some ==> ({
                let why = name_problem(t.names[t.i])->0;
                if s.transient {
                    a == BranchDo::RemoveSource && t.next(later).1 == BranchDo::Fail(why)
                } else {
                    a == BranchDo::Fail(why)
                }
            })
        }),
{
}

/// A request to branch is taken exactly where the vessel has a name that one may
/// have, is there and can be read, and where a snapshot, if one is named, has a
/// label that one may have and is there. Of several reasons against it the first
/// in that order is told.
pub proof fn a_branch_needs_its_source(
    home: Seq<char>,
    name: Seq<char>,
    label: Option<Seq<char>>,
    exists: bool,
    described: bool,
    snap_exists: bool,
)
    ensures
        ({
            let p = branch_problem(home, name, label, exists, described, snap_exists);
            let snap = label is None || (label_ok(label->0) && snap_exists);
            &&& p is None <==> name_problem(name) is None && exists && described && snap
            &&& name_problem(name) is Some ==> p == name_problem(name)
            &&& name_problem(name) is None && !exists ==> p == Some(
                VesselErrorView::NoVessel { name },
            )
            &&& p is Some && p->0 is NoSnapshot ==> label is Some && p->0
                == (VesselErrorView::NoSnapshot { name, label: label->0 }) && !snap_exists
            &&& p is Some && p->0 is BadLabel ==> label is Some && !label_ok(label->0)
        }),
{
}

/// A labelled branch comes from the snapshot of that label, in the directory of
/// the vessel; one without a label from the vessel itself.
pub proof fn where_a_branch_comes_from(
    home: Seq<char>,
    name: Seq<char>,
    label: Option<Seq<char>>,
    there: bool,
    described: bool,
    snap_exists: bool,
    r: Result<BranchSource, VesselError>,
)
    requires
        source_found(home, name, label, there, described, snap_exists, r),
    ensures
        r is Ok <==> branch_problem(home, name, label, there, described, snap_exists) is None,
        r matches Ok(s) ==> s.dir@ == vessel_dir(home, name) && (s.snapshot is Some <==> label is Some),
        r matches Ok(s) ==> label matches Some(l) ==> s.snapshot->0@ == snapshot_dir(
            vessel_dir(home, name),
            l,
        ),
{
}

} // verus!

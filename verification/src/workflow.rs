//! A migration workflow and the decisions it takes while it runs.
//!
//! Running a workflow alternates outside work (cloning, reading history, committing)
//! with decisions. The decisions are made here by [`Workflow::execute`], which takes the
//! stage the run is in and the event that the outside work reported, and returns the
//! next stage and the action to perform.

use vstd::prelude::*;
use crate::destination::{Destination, DestinationView};
use crate::error::WorkflowError;
use crate::history::{
    find_last_migrated_commit_sha, has_nul_message, history_view, migrated_commit_message,
    migrated_message, nul_message, opt_view, outcome_view, possible_outcome,
    revision_range, revision_range_of, search_determined, search_outcome, search_with,
    history_trailers,
    trailers_possible, TrailerLists,
};
use crate::origin::{Origin, OriginView};
use crate::paths::{cache_path, cache_path_of};

verus! {

/// A migration of the history of an origin into a destination, with the origin
/// revision to start from when the destination records none.
#[derive(Debug)]
pub struct Workflow {
    name: String,
    origin: Origin,
    destination: Destination,
    initial_revision: Option<String>,
}

/// A workflow by its name, origin, destination and initial revision.
pub struct WorkflowView {
    pub name: Seq<char>,
    pub origin: OriginView,
    pub destination: DestinationView,
    pub initial_revision: Option<Seq<char>>,
}

impl View for Workflow {
    type V = WorkflowView;

    closed spec fn view(&self) -> WorkflowView {
        WorkflowView {
            name: self.name@,
            origin: self.origin@,
            destination: self.destination@,
            initial_revision: opt_view(self.initial_revision),
        }
    }
}

/// A commit of the origin that is still to be migrated: its id, in hex, and its message.
#[derive(Debug)]
pub struct OriginCommit {
    pub id: String,
    pub message: String,
}

/// An origin commit by its characters.
pub struct CommitView {
    pub id: Seq<char>,
    pub message: Seq<char>,
}

impl View for OriginCommit {
    type V = CommitView;

    open spec fn view(&self) -> CommitView {
        CommitView { id: self.id@, message: self.message@ }
    }
}

/// A list of origin commits by their views.
pub open spec fn commits_view(cs: Seq<OriginCommit>) -> Seq<CommitView> {
    cs.map_values(|c: OriginCommit| c@)
}

/// Where a run of a workflow stands.
#[derive(Debug)]
pub enum Stage {
    /// Nothing has been done yet.
    Idle,
    /// The origin is being cloned.
    CloningOrigin,
    /// The destination is being cloned.
    CloningDestination,
    /// The destination's history is being read.
    ReadingHistory,
    /// The origin commits to migrate are being listed.
    ListingCommits,
    /// `commits[next]` is being migrated.
    Migrating { commits: Vec<OriginCommit>, next: usize },
    /// Every commit has been migrated.
    Finished,
    /// The run stopped.
    Halted,
}

/// A stage by its views.
pub enum StageView {
    Idle,
    CloningOrigin,
    CloningDestination,
    ReadingHistory,
    ListingCommits,
    Migrating { commits: Seq<CommitView>, next: nat },
    Finished,
    Halted,
}

impl View for Stage {
    type V = StageView;

    open spec fn view(&self) -> StageView {
        match self {
            Stage::Idle => StageView::Idle,
            Stage::CloningOrigin => StageView::CloningOrigin,
            Stage::CloningDestination => StageView::CloningDestination,
            Stage::ReadingHistory => StageView::ReadingHistory,
            Stage::ListingCommits => StageView::ListingCommits,
            Stage::Migrating { commits, next } => StageView::Migrating {
                commits: commits_view(commits@),
                next: *next as nat,
            },
            Stage::Finished => StageView::Finished,
            Stage::Halted => StageView::Halted,
        }
    }
}

/// What the outside work reports.
#[derive(Debug)]
pub enum Event {
    /// The run begins.
    Start,
    /// The repository asked for has been cloned.
    Cloned,
    /// The destination's history, newest first, by commit message (`None` where a
    /// message is not UTF-8).
    History(Vec<Option<String>>),
    /// The origin commits in the range asked for, oldest first.
    Commits(Vec<OriginCommit>),
    /// The commit asked for has been migrated.
    Migrated,
}

/// An event by its views.
pub enum EventView {
    Start,
    Cloned,
    History(Seq<Option<Seq<char>>>),
    Commits(Seq<CommitView>),
    Migrated,
}

impl View for Event {
    type V = EventView;

    open spec fn view(&self) -> EventView {
        match self {
            Event::Start => EventView::Start,
            Event::Cloned => EventView::Cloned,
            Event::History(h) => EventView::History(history_view(h@)),
            Event::Commits(cs) => EventView::Commits(commits_view(cs@)),
            Event::Migrated => EventView::Migrated,
        }
    }
}

/// Why a run stops where the migration cannot go on.
#[derive(Debug, Clone, Copy, PartialEq, Eq, Structural)]
pub enum HaltReason {
    /// No commit of the destination records an origin revision and no initial revision
    /// was given, so there is no revision to start from.
    InitialRevisionRequired,
}

/// What the outside work is to do next.
#[derive(Debug)]
pub enum Action {
    /// Clone `url` at `branch` into the directory `path`.
    Clone { url: String, branch: String, path: String },
    /// Read the destination's history.
    ReadHistory,
    /// List the origin commits in `range`, oldest first.
    ListCommits { range: String },
    /// Copy the tree of origin commit `id` into the destination and commit it there
    /// with `message`.
    Migrate { id: String, message: String },
    /// The migration is complete.
    Finish,
    /// The migration failed.
    Fail(WorkflowError),
    /// The migration cannot go on.
    Halt(HaltReason),
}

/// An action by its views.
pub enum ActionView {
    Clone { url: Seq<char>, branch: Seq<char>, path: Seq<char> },
    ReadHistory,
    ListCommits { range: Seq<char> },
    Migrate { id: Seq<char>, message: Seq<char> },
    Finish,
    Fail,
    Halt(HaltReason),
}

impl View for Action {
    type V = ActionView;

    open spec fn view(&self) -> ActionView {
        match self {
            Action::Clone { url, branch, path } => ActionView::Clone {
                url: url@,
                branch: branch@,
                path: path@,
            },
            Action::ReadHistory => ActionView::ReadHistory,
            Action::ListCommits { range } => ActionView::ListCommits { range: range@ },
            Action::Migrate { id, message } => ActionView::Migrate { id: id@, message: message@ },
            Action::Finish => ActionView::Finish,
            Action::Fail(_) => ActionView::Fail,
            Action::Halt(r) => ActionView::Halt(*r),
        }
    }
}

impl Stage {
    /// A stage that a run can be in: a commit being migrated is one of the listed ones.
    pub open spec fn wf(&self) -> bool {
        match self {
            Stage::Migrating { commits, next } => *next < commits@.len(),
            _ => true,
        }
    }
}

/// Whether a run in stage `s` waits for event `e`.
pub open spec fn awaits(s: StageView, e: EventView) -> bool {
    match (s, e) {
        (StageView::Idle, EventView::Start) => true,
        (StageView::CloningOrigin, EventView::Cloned) => true,
        (StageView::CloningDestination, EventView::Cloned) => true,
        (StageView::ReadingHistory, EventView::History(_)) => true,
        (StageView::ListingCommits, EventView::Commits(_)) => true,
        (StageView::Migrating { .. }, EventView::Migrated) => true,
        _ => false,
    }
}

/// The migration of the `i`-th of `commits`: the stage and action that begin it.
pub open spec fn begin_commit(commits: Seq<CommitView>, i: int) -> (StageView, ActionView) {
    (
        StageView::Migrating { commits, next: i as nat },
        ActionView::Migrate {
            id: commits[i].id,
            message: migrated_message(commits[i].message, commits[i].id),
        },
    )
}

/// The revision a run starts from: the last migrated one found in the destination, else
/// the initial revision of the workflow, if any.
pub open spec fn start_revision(w: WorkflowView, found: Option<Seq<char>>) -> Option<Seq<char>> {
    match found {
        Some(rev) => Some(rev),
        None => w.initial_revision,
    }
}

/// The decision a workflow takes once the search of the destination's history came to
/// `outcome`.
pub open spec fn decide_history(w: WorkflowView, outcome: Result<Option<Seq<char>>, ()>) -> (
    StageView,
    ActionView,
) {
    match outcome {
        Err(_) => (StageView::Halted, ActionView::Fail),
        Ok(found) => match start_revision(w, found) {
            Some(rev) => (
                StageView::ListingCommits,
                ActionView::ListCommits { range: revision_range_of(rev) },
            ),
            None => (StageView::Halted, ActionView::Halt(HaltReason::InitialRevisionRequired)),
        },
    }
}

/// The decision a workflow takes in stage `s` on event `e`, where the search of a
/// history that `e` reports comes to `o`: the next stage and the action to perform.
pub open spec fn step(w: WorkflowView, s: StageView, e: EventView, o: Result<Option<Seq<char>>, ()>) -> (StageView, ActionView) {
    match (s, e) {
        (StageView::Idle, EventView::Start) => (
            StageView::CloningOrigin,
            ActionView::Clone {
                url: w.origin.url,
                branch: w.origin.reference,
                path: cache_path_of(w.origin.url, w.origin.reference),
            },
        ),
        (StageView::CloningOrigin, EventView::Cloned) => (
            StageView::CloningDestination,
            ActionView::Clone {
                url: w.destination.url,
                branch: w.destination.branch,
                path: cache_path_of(w.destination.url, w.destination.branch),
            },
        ),
        (StageView::CloningDestination, EventView::Cloned) => (
            StageView::ReadingHistory,
            ActionView::ReadHistory,
        ),
        (StageView::ReadingHistory, EventView::History(_)) => decide_history(w, o),
        (StageView::ListingCommits, EventView::Commits(cs)) => if cs.len() == 0 {
            (StageView::Finished, ActionView::Finish)
        } else {
            begin_commit(cs, 0)
        },
        (StageView::Migrating { commits, next }, EventView::Migrated) => if next + 1
            < commits.len() {
            begin_commit(commits, (next + 1) as int)
        } else {
            (StageView::Finished, ActionView::Finish)
        },
        _ => (StageView::Halted, ActionView::Finish),
    }
}

/// Whether the decision on event `e` reads only ASCII messages (or none), where the
/// trailers read in each message are those `git_message_trailers` names in it.
pub open spec fn determined(e: EventView) -> bool {
    match e {
        EventView::History(h) => search_determined(h),
        _ => true,
    }
}

/// Whether a search of the history that `e` reports, if it reports one, can come to `o`.
pub open spec fn outcome_possible(e: EventView, o: Result<Option<Seq<char>>, ()>) -> bool {
    match e {
        EventView::History(h) => possible_outcome(h, o),
        _ => true,
    }
}

/// What a search of the history that `e` reports comes to where it reads only ASCII
/// messages; nothing is searched on another event.
pub open spec fn event_outcome(e: EventView) -> Result<Option<Seq<char>>, ()> {
    match e {
        EventView::History(h) => search_outcome(h),
        _ => Ok(None),
    }
}

/// What the search of the history that `e` reports comes to, with the trailers read in
/// each of its messages (`history_trailers`); nothing is searched on another event.
pub open spec fn read_outcome(e: EventView) -> Result<Option<Seq<char>>, ()> {
    match e {
        EventView::History(h) => search_with(h, history_trailers(h)),
        _ => Ok(None),
    }
}

impl Stage {
    /// Whether a run in this stage waits for `event`.
    pub fn awaits(&self, event: &Event) -> (r: bool)
        ensures
            r == awaits(self@, event@),
    {
        match (self, event) {
            (Stage::Idle, Event::Start) => true,
            (Stage::CloningOrigin, Event::Cloned) => true,
            (Stage::CloningDestination, Event::Cloned) => true,
            (Stage::ReadingHistory, Event::History(_)) => true,
            (Stage::ListingCommits, Event::Commits(_)) => true,
            (Stage::Migrating { .. }, Event::Migrated) => true,
            _ => false,
        }
    }
}

impl Workflow {
    /// The workflow named `name` that migrates `origin` into `destination`.
    pub fn new(name: String, origin: Origin, destination: Destination) -> (w: Workflow)
        ensures
            w@ == (WorkflowView {
                name: name@,
                origin: origin@,
                destination: destination@,
                initial_revision: None,
            }),
    {
        Workflow { name, origin, destination, initial_revision: None }
    }

    /// Sets the origin revision to start from when the destination records none.
    pub fn set_initial_revision(&mut self, revision: Option<String>)
        ensures
            final(self)@ == (WorkflowView { initial_revision: opt_view(revision), ..old(self)@ }),
    {
        self.initial_revision = revision;
    }

    /// The origin revision to start from when the destination records none.
    pub fn initial_revision(&self) -> (r: &Option<String>)
        ensures
            opt_view(*r) == self@.initial_revision,
    {
        &self.initial_revision
    }

    /// The workflow's name.
    pub fn name(&self) -> (r: &String)
        ensures
            r@ == self@.name,
    {
        &self.name
    }

    /// The repository the workflow migrates from.
    pub fn origin(&self) -> (r: &Origin)
        ensures
            r@ == self@.origin,
    {
        &self.origin
    }

    /// The repository the workflow migrates into.
    pub fn destination(&self) -> (r: &Destination)
        ensures
            r@ == self@.destination,
    {
        &self.destination
    }

    /// The text by which a workflow shows itself.
    pub fn describe(&self) -> (s: String)
        ensures
            s@ == "workflow"@,
    {
        String::from_str("workflow")
    }

    fn begin_commit(commits: Vec<OriginCommit>, i: usize) -> (r: (Stage, Action))
        requires
            i < commits@.len(),
        ensures
            (r.0@, r.1@) == begin_commit(commits_view(commits@), i as int),
            r.0.wf(),
    {
        let id = commits[i].id.clone();
        let message = migrated_commit_message(commits[i].message.as_str(), id.as_str());
        (Stage::Migrating { commits, next: i }, Action::Migrate { id, message })
    }

    /// Decides what a run does next: given the stage the run is in and the event that
    /// the outside work reported, returns the next stage and the action to perform.
    ///
    /// A run starts `Idle` with `Event::Start`; it clones the origin and then the
    /// destination, each under `cache/`, reads the destination's history to find the
    /// last migrated origin revision (else starts from the initial revision), lists the
    /// origin commits after it and migrates them one by one, oldest first, each with a
    /// message that records its origin id. The decision is `step` of the stage and
    /// event, where the search of a reported history comes to `read_outcome` of the
    /// event: the search with the trailers read in each message, one of the outcomes
    /// `possible_outcome` allows, and `search_outcome` of the history wherever it reads
    /// only ASCII messages.
    pub fn execute(&self, stage: Stage, event: Event) -> (r: (Stage, Action))
        requires
            stage.wf(),
            awaits(stage@, event@),
        ensures
            r.0.wf(),
            exists|o: Result<Option<Seq<char>>, ()>|
                outcome_possible(event@, o) && (r.0@, r.1@) == #[trigger] step(self@, stage@, event@, o),
            determined(event@) ==> (r.0@, r.1@) == step(self@, stage@, event@, event_outcome(event@)),
            (r.0@, r.1@) == step(self@, stage@, event@, read_outcome(event@)),
    {
        let ghost st = stage@;
        let ghost ev = event@;
        let ghost mut o: Result<Option<Seq<char>>, ()> = Ok(None);
        let r = match (stage, event) {
            (Stage::Idle, Event::Start) => {
                let path = cache_path(self.origin.url.as_str(), self.origin.reference.as_str());
                (
                    Stage::CloningOrigin,
                    Action::Clone {
                        url: self.origin.url.clone(),
                        branch: self.origin.reference.clone(),
                        path,
                    },
                )
            },
            (Stage::CloningOrigin, Event::Cloned) => {
                let path = cache_path(
                    self.destination.url.as_str(),
                    self.destination.branch.as_str(),
                );
                (
                    Stage::CloningDestination,
                    Action::Clone {
                        url: self.destination.url.clone(),
                        branch: self.destination.branch.clone(),
                        path,
                    },
                )
            },
            (Stage::CloningDestination, Event::Cloned) => (Stage::ReadingHistory, Action::ReadHistory),
            (Stage::ReadingHistory, Event::History(h)) => {
                let found = find_last_migrated_commit_sha(&h);
                proof {
                    o = outcome_view(found);
                }
                let r = match found {
                    Ok(Some(rev)) => (
                        Stage::ListingCommits,
                        Action::ListCommits { range: revision_range(rev.as_str()) },
                    ),
                    Ok(None) => match &self.initial_revision {
                        Some(rev) => (
                            Stage::ListingCommits,
                            Action::ListCommits { range: revision_range(rev.as_str()) },
                        ),
                        None => (Stage::Halted, Action::Halt(HaltReason::InitialRevisionRequired)),
                    },
                    Err(e) => (Stage::Halted, Action::Fail(e)),
                };
                assert((r.0@, r.1@) == decide_history(self@, o));
                r
            },
            (Stage::ListingCommits, Event::Commits(cs)) => {
                if cs.len() == 0 {
                    (Stage::Finished, Action::Finish)
                } else {
                    Self::begin_commit(cs, 0)
                }
            },
            (Stage::Migrating { commits, next }, Event::Migrated) => {
                if next < commits.len() - 1 {
                    Self::begin_commit(commits, next + 1)
                } else {
                    (Stage::Finished, Action::Finish)
                }
            },
            _ => (Stage::Halted, Action::Finish),
        };
        assert(outcome_possible(ev, o) && (r.0@, r.1@) == step(self@, st, ev, o));
        assert(o == read_outcome(ev));
        r
    }
}

} // verus!

verus! {

/// The stage a run reaches and the actions it takes, in order, from stage `s` on the
/// events `es`, where the search of the destination's history comes to `o`.
pub open spec fn run(w: WorkflowView, o: Result<Option<Seq<char>>, ()>, s: StageView, es: Seq<EventView>) -> (StageView, Seq<ActionView>)
    decreases es.len(),
{
    if es.len() == 0 {
        (s, Seq::empty())
    } else {
        let (s1, a) = step(w, s, es[0], o);
        let (s2, rest) = run(w, o, s1, es.drop_first());
        (s2, seq![a] + rest)
    }
}

/// Whether each of the events `es` arrives in a stage that waits for it, from stage `s`.
pub open spec fn all_awaited(w: WorkflowView, o: Result<Option<Seq<char>>, ()>, s: StageView, es: Seq<EventView>) -> bool
    decreases es.len(),
{
    es.len() == 0 || (awaits(s, es[0]) && all_awaited(w, o, step(w, s, es[0], o).0, es.drop_first()))
}

/// `n` reports that a commit has been migrated.
pub open spec fn migrations(n: nat) -> Seq<EventView> {
    Seq::new(n, |i: int| EventView::Migrated)
}

/// The action that migrates origin commit `c`.
pub open spec fn migrate_action(c: CommitView) -> ActionView {
    ActionView::Migrate { id: c.id, message: migrated_message(c.message, c.id) }
}

/// The events of a run that succeeds: the start, the two clones, the destination's
/// history `h`, the origin commits `cs`, and one report per migrated commit.
pub open spec fn complete_run_events(h: Seq<Option<Seq<char>>>, cs: Seq<CommitView>) -> Seq<EventView> {
    seq![
        EventView::Start,
        EventView::Cloned,
        EventView::Cloned,
        EventView::History(h),
        EventView::Commits(cs),
    ] + migrations(cs.len())
}

/// The actions that prepare a migration of `w` up to the listing of the origin commits
/// after revision `rev`.
pub open spec fn preparation(w: WorkflowView, rev: Seq<char>) -> Seq<ActionView> {
    seq![
        ActionView::Clone {
            url: w.origin.url,
            branch: w.origin.reference,
            path: cache_path_of(w.origin.url, w.origin.reference),
        },
        ActionView::Clone {
            url: w.destination.url,
            branch: w.destination.branch,
            path: cache_path_of(w.destination.url, w.destination.branch),
        },
        ActionView::ReadHistory,
        ActionView::ListCommits { range: revision_range_of(rev) },
    ]
}

proof fn lemma_migrating_tail(w: WorkflowView, o: Result<Option<Seq<char>>, ()>, cs: Seq<CommitView>, k: int)
    requires
        0 <= k < cs.len(),
    ensures
        all_awaited(w, o, StageView::Migrating { commits: cs, next: k as nat }, migrations((cs.len() - k) as nat)),
        run(w, o, StageView::Migrating { commits: cs, next: k as nat }, migrations((cs.len() - k) as nat)).0
            == StageView::Finished,
        run(w, o, StageView::Migrating { commits: cs, next: k as nat }, migrations((cs.len() - k) as nat)).1
            =~= cs.subrange(k + 1, cs.len() as int).map_values(|c: CommitView| migrate_action(c)) + seq![ActionView::Finish],
    decreases cs.len() - k,
{
    let s = StageView::Migrating { commits: cs, next: k as nat };
    let es = migrations((cs.len() - k) as nat);
    assert(es[0] == EventView::Migrated);
    assert(awaits(s, es[0]));
    let s1 = step(w, s, es[0], o).0;
    let a = step(w, s, es[0], o).1;
    let rest = es.drop_first();
    if k + 1 < cs.len() {
        assert(rest =~= migrations((cs.len() - (k + 1)) as nat));
        lemma_migrating_tail(w, o, cs, k + 1);
        assert(s1 == StageView::Migrating { commits: cs, next: (k + 1) as nat });
        assert(a == migrate_action(cs[k + 1]));
        let tail = cs.subrange(k + 2, cs.len() as int).map_values(|c: CommitView| migrate_action(c));
        assert(run(w, o, s1, rest).1 =~= tail + seq![ActionView::Finish]);
        assert(run(w, o, s, es).1 == seq![a] + run(w, o, s1, rest).1);
        assert(cs.subrange(k + 1, cs.len() as int).map_values(|c: CommitView| migrate_action(c))
            =~= seq![migrate_action(cs[k + 1])] + tail);
        assert(seq![a] + (tail + seq![ActionView::Finish]) =~= seq![a] + tail + seq![ActionView::Finish]);
    } else {
        assert(rest =~= Seq::<EventView>::empty());
        assert(s1 == StageView::Finished);
        assert(a == ActionView::Finish);
        assert(run(w, o, s1, rest).1 =~= Seq::<ActionView>::empty());
        assert(run(w, o, s, es).1 == seq![a] + run(w, o, s1, rest).1);
        assert(cs.subrange(k + 1, cs.len() as int).map_values(|c: CommitView| migrate_action(c))
            =~= Seq::<ActionView>::empty());
        assert(all_awaited(w, o, s1, rest));
    }
}

/// A run whose search of the destination's history comes to an outcome `o` that it can
/// come to, and that has a revision to start from (the last migrated one recorded in
/// the destination, else the workflow's initial revision), migrates every origin commit after
/// it exactly once, oldest first, each with a message recording its origin id, and then
/// finishes: on the events of such a run, every event is awaited, and the actions are the
/// two clones, the reading of the history, the listing of the commits after the start
/// revision, one migration per commit in order, and the finish.
pub proof fn law_complete_run(
    w: WorkflowView,
    h: Seq<Option<Seq<char>>>,
    o: Result<Option<Seq<char>>, ()>,
    cs: Seq<CommitView>,
)
    requires
        possible_outcome(h, o),
        o matches Ok(found) && start_revision(w, found) is Some,
    ensures
        all_awaited(w, o, StageView::Idle, complete_run_events(h, cs)),
        run(w, o, StageView::Idle, complete_run_events(h, cs)).0 == StageView::Finished,
        run(w, o, StageView::Idle, complete_run_events(h, cs)).1 =~= preparation(
            w,
            start_revision(w, o->Ok_0)->0,
        ) + cs.map_values(|c: CommitView| migrate_action(c)) + seq![ActionView::Finish],
{
    let es = complete_run_events(h, cs);
    let rev = start_revision(w, o->Ok_0)->0;
    let pre = preparation(w, rev);
    let e1 = es.drop_first();
    let e2 = e1.drop_first();
    let e3 = e2.drop_first();
    let e4 = e3.drop_first();
    let e5 = e4.drop_first();
    assert(es[0] == EventView::Start);
    assert(e1[0] == EventView::Cloned);
    assert(e2[0] == EventView::Cloned);
    assert(e3[0] == EventView::History(h));
    assert(e4[0] == EventView::Commits(cs));
    assert(e5 =~= migrations(cs.len()));
    let s1 = StageView::CloningOrigin;
    let s2 = StageView::CloningDestination;
    let s3 = StageView::ReadingHistory;
    let s4 = StageView::ListingCommits;
    let mig = cs.map_values(|c: CommitView| migrate_action(c));
    if cs.len() == 0 {
        assert(e5 =~= Seq::<EventView>::empty());
        assert(mig =~= Seq::<ActionView>::empty());
        assert(step(w, s4, e4[0], o).0 == StageView::Finished);
        assert(run(w, o, StageView::Finished, e5).1 =~= Seq::<ActionView>::empty());
        assert(all_awaited(w, o, StageView::Finished, e5));
    } else {
        lemma_migrating_tail(w, o, cs, 0);
        let s5 = StageView::Migrating { commits: cs, next: 0 };
        assert(step(w, s4, e4[0], o).0 == s5);
        assert(step(w, s4, e4[0], o).1 == migrate_action(cs[0]));
        assert(mig =~= seq![migrate_action(cs[0])] + cs.subrange(1, cs.len() as int).map_values(
            |c: CommitView| migrate_action(c),
        ));
        assert(run(w, o, s5, e5).1 =~= cs.subrange(1, cs.len() as int).map_values(
            |c: CommitView| migrate_action(c),
        ) + seq![ActionView::Finish]);
    }
    let r4 = run(w, o, s4, e4);
    assert(r4.0 == StageView::Finished);
    assert(r4.1 =~= mig + seq![ActionView::Finish]);
    assert(all_awaited(w, o, s4, e4));
    assert(step(w, s3, e3[0], o).0 == s4);
    assert(step(w, s3, e3[0], o).1 == pre[3]);
    let r3 = run(w, o, s3, e3);
    assert(r3.1 == seq![pre[3]] + r4.1);
    assert(step(w, s2, e2[0], o).0 == s3);
    assert(step(w, s2, e2[0], o).1 == pre[2]);
    let r2 = run(w, o, s2, e2);
    assert(r2.1 == seq![pre[2]] + r3.1);
    assert(step(w, s1, e1[0], o).0 == s2);
    assert(step(w, s1, e1[0], o).1 == pre[1]);
    let r1 = run(w, o, s1, e1);
    assert(r1.1 == seq![pre[1]] + r2.1);
    assert(step(w, StageView::Idle, es[0], o).0 == s1);
    assert(step(w, StageView::Idle, es[0], o).1 == pre[0]);
    let r0 = run(w, o, StageView::Idle, es);
    assert(r0.1 == seq![pre[0]] + r1.1);
    assert(r0.1 =~= pre + mig + seq![ActionView::Finish]);
    assert(all_awaited(w, o, s3, e3));
    assert(all_awaited(w, o, s2, e2));
    assert(all_awaited(w, o, s1, e1));
}

/// Where the destination records no migrated revision, a run with an initial revision
/// `rev` starts from it: it lists the origin commits in `rev..HEAD` and migrates them
/// all, in order, as any complete run does.
pub proof fn law_starts_from_initial_revision(
    w: WorkflowView,
    h: Seq<Option<Seq<char>>>,
    cs: Seq<CommitView>,
    rev: Seq<char>,
)
    requires
        possible_outcome(h, Ok::<Option<Seq<char>>, ()>(None)),
        w.initial_revision == Some(rev),
    ensures
        all_awaited(w, Ok::<Option<Seq<char>>, ()>(None), StageView::Idle, complete_run_events(h, cs)),
        run(w, Ok::<Option<Seq<char>>, ()>(None), StageView::Idle, complete_run_events(h, cs)).0 == StageView::Finished,
        run(w, Ok::<Option<Seq<char>>, ()>(None), StageView::Idle, complete_run_events(h, cs)).1 =~= preparation(w, rev) + cs.map_values(
            |c: CommitView| migrate_action(c),
        ) + seq![ActionView::Finish],
        preparation(w, rev)[3] == (ActionView::ListCommits { range: revision_range_of(rev) }),
{
    law_complete_run(w, h, Ok::<Option<Seq<char>>, ()>(None), cs);
}

/// A run whose search finds no commit of the destination recording an origin revision,
/// and that has no initial revision, stops after reading the history, asking for an initial revision.
pub proof fn law_no_start_revision(w: WorkflowView, h: Seq<Option<Seq<char>>>)
    requires
        possible_outcome(h, Ok::<Option<Seq<char>>, ()>(None)),
        w.initial_revision is None,
    ensures
        all_awaited(w, Ok::<Option<Seq<char>>, ()>(None), StageView::Idle, seq![EventView::Start, EventView::Cloned, EventView::Cloned, EventView::History(h)]),
        run(w, Ok::<Option<Seq<char>>, ()>(None), StageView::Idle, seq![EventView::Start, EventView::Cloned, EventView::Cloned, EventView::History(h)]).0
            == StageView::Halted,
        run(w, Ok::<Option<Seq<char>>, ()>(None), StageView::Idle, seq![EventView::Start, EventView::Cloned, EventView::Cloned, EventView::History(h)]).1
            =~= preparation(w, Seq::empty()).take(3) + seq![ActionView::Halt(HaltReason::InitialRevisionRequired)],
{
    let o = Ok::<Option<Seq<char>>, ()>(None);
    let es = seq![EventView::Start, EventView::Cloned, EventView::Cloned, EventView::History(h)];
    let pre = preparation(w, Seq::empty());
    let e1 = es.drop_first();
    let e2 = e1.drop_first();
    let e3 = e2.drop_first();
    let e4 = e3.drop_first();
    assert(e1 =~= seq![EventView::Cloned, EventView::Cloned, EventView::History(h)]);
    assert(e2 =~= seq![EventView::Cloned, EventView::History(h)]);
    assert(e3 =~= seq![EventView::History(h)]);
    assert(e4 =~= Seq::<EventView>::empty());
    let halt = ActionView::Halt(HaltReason::InitialRevisionRequired);
    assert(run(w, Ok::<Option<Seq<char>>, ()>(None), StageView::Halted, e4).1 =~= Seq::<ActionView>::empty());
    let r3 = run(w, Ok::<Option<Seq<char>>, ()>(None), StageView::ReadingHistory, e3);
    assert(r3.0 == StageView::Halted);
    assert(r3.1 =~= seq![halt]);
    let r2 = run(w, Ok::<Option<Seq<char>>, ()>(None), StageView::CloningDestination, e2);
    assert(r2.1 =~= seq![pre[2], halt]);
    let r1 = run(w, Ok::<Option<Seq<char>>, ()>(None), StageView::CloningOrigin, e1);
    assert(r1.1 =~= seq![pre[1], pre[2], halt]);
    let r0 = run(w, Ok::<Option<Seq<char>>, ()>(None), StageView::Idle, es);
    assert(r0.1 =~= seq![pre[0], pre[1], pre[2], halt]);
    assert(pre.take(3) + seq![halt] =~= seq![pre[0], pre[1], pre[2], halt]);
    assert(all_awaited(w, Ok::<Option<Seq<char>>, ()>(None), StageView::Halted, e4));
    assert(all_awaited(w, Ok::<Option<Seq<char>>, ()>(None), StageView::ReadingHistory, e3));
    assert(all_awaited(w, Ok::<Option<Seq<char>>, ()>(None), StageView::CloningDestination, e2));
    assert(all_awaited(w, Ok::<Option<Seq<char>>, ()>(None), StageView::CloningOrigin, e1));
}

/// A search of a history fails only where a message holds a NUL character, and the run
/// then stops with the failure after reading the history.
pub proof fn law_unreadable_history_fails(w: WorkflowView, h: Seq<Option<Seq<char>>>, o: Result<Option<Seq<char>>, ()>)
    requires
        possible_outcome(h, o),
        o is Err,
    ensures
        has_nul_message(h),
        step(w, StageView::ReadingHistory, EventView::History(h), o) == (StageView::Halted, ActionView::Fail),
{
    let t = choose|t: TrailerLists| trailers_possible(h, t) && o == #[trigger] search_with(h, t);
    lemma_err_has_nul(h, t);
}

proof fn lemma_err_has_nul(h: Seq<Option<Seq<char>>>, t: TrailerLists)
    requires
        search_with(h, t) is Err,
    ensures
        has_nul_message(h),
    decreases h.len(),
{
    if nul_message(h[0]) {
        assert(nul_message(h[0]));
    } else {
        lemma_err_has_nul(h.drop_first(), t.drop_first());
        let i = choose|i: int| 0 <= i < h.drop_first().len() && #[trigger] nul_message(h.drop_first()[i]);
        assert(h[i + 1] == h.drop_first()[i]);
        assert(nul_message(h[i + 1]));
    }
}

} // verus!

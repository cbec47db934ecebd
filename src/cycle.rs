//! The decisions of a harvest cycle. The caller performs the fetches and
//! stores; these functions decide which ids to fetch, how a failed request is
//! treated, and in which order the persistence work is dispatched.
use vstd::prelude::*;
use std::collections::HashSet;

use crate::progress::INTERVAL;
use crate::task::{Task, BADGES, FULL, MEDALS, RANKING, RARITY};
use crate::text::chars_of;

verus! {

broadcast use vstd::std_specs::hash::group_hash_axioms;

/// Leaderboard pages scanned per mode when rarities are wanted.
pub const RARITY_PAGES: usize = 200;

/// Leaderboard pages scanned per mode when only rankings are refreshed.
pub const RANKING_PAGES: usize = 5;

/// No more than this many leaderboard pages are ever scanned per mode.
pub const MAX_PAGES: usize = 200;

/// How many ids a debug run keeps.
pub const DEBUG_SAMPLE: usize = 10;

/// The id a debug run falls back on when it has no id at all.
pub const FALLBACK_USER_ID: u32 = 2211396;

/// `base` followed by each id of `ids` that is not there yet, in order of
/// first occurrence.
pub open spec fn appended(base: Seq<u32>, ids: Seq<u32>) -> Seq<u32>
    decreases ids.len(),
{
    if ids.len() == 0 {
        base
    } else {
        let b = appended(base, ids.drop_last());
        if b.contains(ids.last()) {
            b
        } else {
            b.push(ids.last())
        }
    }
}

/// The ids of the players to fetch, without duplicates, in the order they came.
pub struct TargetIds {
    order: Vec<u32>,
    seen: HashSet<u32>,
}

impl TargetIds {
    /// The ids, in the order they came.
    pub closed spec fn view(&self) -> Seq<u32> {
        self.order@
    }

    pub closed spec fn wf(&self) -> bool {
        &&& self.order@.no_duplicates()
        &&& forall|id: u32| #[trigger] self.seen@.contains(id) <==> self.order@.contains(id)
    }

    pub fn new() -> (r: TargetIds)
        ensures
            r.wf(),
            r@.len() == 0,
    {
        TargetIds { order: Vec::new(), seen: HashSet::new() }
    }

    /// Adds `id` unless it is already there.
    pub fn insert(&mut self, id: u32)
        requires
            old(self).wf(),
        ensures
            final(self).wf(),
            final(self)@ == if old(self)@.contains(id) {
                old(self)@
            } else {
                old(self)@.push(id)
            },
    {
        if !self.seen.contains(&id) {
            let ghost before = self.order@;
            self.seen.insert(id);
            self.order.push(id);
            proof {
                assert forall|x: u32| #[trigger] self.seen@.contains(x) <==> self.order@.contains(
                    x,
                ) by {
                    if x == id {
                        assert(self.order@[self.order@.len() - 1] == x);
                    } else {
                        if self.order@.contains(x) {
                            let j = choose|j: int| 0 <= j < self.order@.len() && self.order@[j] == x;
                            assert(before[j] == x);
                        }
                        if before.contains(x) {
                            let j = choose|j: int| 0 <= j < before.len() && before[j] == x;
                            assert(self.order@[j] == x);
                        }
                    }
                }
            }
        }
    }

    /// Adds each of `ids` that is not already there.
    pub fn extend(&mut self, ids: &Vec<u32>)
        requires
            old(self).wf(),
        ensures
            final(self).wf(),
            forall|x: u32|
                final(self)@.contains(x) <==> (old(self)@.contains(x) || ids@.contains(x)),
            final(self)@.take(old(self)@.len() as int) == old(self)@,
            final(self)@ == appended(old(self)@, ids@),
    {
        let ghost before = self@;
        let mut i: usize = 0;
        proof {
            assert(self@.take(before.len() as int) =~= before);
        }
        while i < ids.len()
            invariant
                self.wf(),
                i <= ids@.len(),
                forall|x: u32|
                    #[trigger] self@.contains(x) <==> (before.contains(x) || ids@.take(
                        i as int,
                    ).contains(x)),
                self@.len() >= before.len(),
                self@.take(before.len() as int) == before,
                self@ == appended(before, ids@.take(i as int)),
            decreases ids@.len() - i,
        {
            let ghost prev = self@;
            self.insert(ids[i]);
            proof {
                assert(self@.take(before.len() as int) =~= before) by {
                    if self@ != prev {
                        assert(self@.take(before.len() as int) =~= prev.take(before.len() as int));
                    }
                }
                let y = ids@[i as int];
                let t = ids@.take(i as int);
                assert(ids@.take(i + 1) =~= t.push(y));
                assert(ids@.take(i + 1).drop_last() =~= t);
                assert forall|x: u32| t.push(y).contains(x) <==> (t.contains(x) || x == y) by {
                    if t.push(y).contains(x) && x != y {
                        let j = choose|j: int| 0 <= j < t.push(y).len() && t.push(y)[j] == x;
                        assert(t[j] == x);
                    }
                    if t.contains(x) {
                        let j = choose|j: int| 0 <= j < t.len() && t[j] == x;
                        assert(t.push(y)[j] == x);
                    }
                    if x == y {
                        assert(t.push(y)[t.len() as int] == x);
                    }
                }
                assert(self@.contains(y)) by {
                    if prev.contains(y) {
                        let j = choose|j: int| 0 <= j < prev.len() && prev[j] == y;
                        assert(self@[j] == y);
                    } else {
                        assert(self@[self@.len() - 1] == y);
                    }
                }
                assert forall|x: u32| prev.contains(x) implies self@.contains(x) by {
                    let j = choose|j: int| 0 <= j < prev.len() && prev[j] == x;
                    assert(self@[j] == x);
                }
                assert forall|x: u32| self@.contains(x) implies prev.contains(x) || x == y by {
                    if !prev.contains(x) {
                        let j = choose|j: int| 0 <= j < self@.len() && self@[j] == x;
                        if j < prev.len() {
                            assert(prev[j] == x);
                        }
                    }
                }
                assert forall|x: u32|
                    #[trigger] self@.contains(x) <==> (before.contains(x) || ids@.take(i + 1).contains(x)) by {
                    assert(prev.contains(x) <==> (before.contains(x) || t.contains(x)));
                    assert(ids@.take(i + 1).contains(x) <==> (t.contains(x) || x == y));
                }
            }
            i += 1;
        }
        proof {
            assert(ids@.take(i as int) =~= ids@);
        }
    }

    /// Keeps the first ids of a debug run; with none, the fallback id.
    pub fn debug_sample(&mut self)
        requires
            old(self).wf(),
        ensures
            final(self).wf(),
            final(self)@ == if old(self)@.len() == 0 {
                seq![FALLBACK_USER_ID]
            } else if old(self)@.len() <= DEBUG_SAMPLE {
                old(self)@
            } else {
                old(self)@.take(DEBUG_SAMPLE as int)
            },
    {
        if self.order.len() == 0 {
            self.insert(FALLBACK_USER_ID);
            proof {
                assert(self@ =~= seq![FALLBACK_USER_ID]);
            }
        } else if self.order.len() > DEBUG_SAMPLE {
            let mut kept = TargetIds::new();
            let mut i: usize = 0;
            while i < DEBUG_SAMPLE
                invariant
                    self.wf(),
                    self@.len() > DEBUG_SAMPLE,
                    kept.wf(),
                    i <= DEBUG_SAMPLE,
                    kept@ == self@.take(i as int),
                decreases DEBUG_SAMPLE - i,
            {
                proof {
                    if kept@.contains(self@[i as int]) {
                        let j = choose|j: int| 0 <= j < kept@.len() && kept@[j] == self@[i as int];
                        assert(self@[j] == self@[i as int]);
                    }
                }
                kept.insert(self.order[i]);
                proof {
                    assert(kept@ =~= self@.take(i + 1));
                }
                i += 1;
            }
            *self = kept;
        }
    }

    pub fn len(&self) -> (r: usize)
        ensures
            r == self@.len(),
    {
        self.order.len()
    }

    /// The ids, in the order they came.
    pub fn into_vec(self) -> (r: Vec<u32>)
        ensures
            r@ == self@,
    {
        self.order
    }
}

/// How many leaderboard pages per mode a task scans: many for rarities, a
/// few for rankings, none otherwise and never in a debug run.
pub open spec fn pages_for(task: Task, debug: bool) -> Option<usize> {
    if debug {
        None
    } else if task.0 & RARITY == RARITY {
        Some(RARITY_PAGES)
    } else if task.0 & RANKING == RANKING {
        Some(RANKING_PAGES)
    } else {
        None
    }
}

pub fn leaderboard_pages(task: Task, debug: bool) -> (r: Option<usize>)
    ensures
        r == pages_for(task, debug),
{
    if debug {
        None
    } else if task.rarity() {
        Some(RARITY_PAGES)
    } else if task.ranking() {
        Some(RANKING_PAGES)
    } else {
        None
    }
}

/// The pages to scan per mode: at most `MAX_PAGES`.
pub fn page_limit(max_page: usize) -> (r: usize)
    ensures
        r == if max_page < MAX_PAGES {
            max_page
        } else {
            MAX_PAGES
        },
{
    if max_page < MAX_PAGES {
        max_page
    } else {
        MAX_PAGES
    }
}

/// Does the cycle start from the stored ranking participants? Only when
/// rankings are requested.
pub fn wants_stored_participants(task: Task) -> (r: bool)
    ensures
        r == (task.0 & RANKING == RANKING),
{
    task.ranking()
}

/// Does the cycle add every id of the complete stored ranking? Only for the
/// full task, and never in a debug run.
pub fn wants_full_ranking(task: Task, debug: bool) -> (r: bool)
    ensures
        r == (task.0 & FULL == FULL && !debug),
{
    task.contains(Task(FULL)) && !debug
}

/// Is a progress snapshot due after `done` players?
pub fn progress_due(done: usize) -> (r: bool)
    ensures
        r == (done % INTERVAL == 0),
{
    done % INTERVAL == 0
}

/// How a request for one mode of a player came back.
#[derive(Clone, Copy, Debug, PartialEq, Eq, Structural)]
pub enum ModeOutcome {
    Found,
    NotFound,
    Transient,
    Failed,
}

/// What to do with one mode's outcome.
#[derive(Clone, Copy, Debug, PartialEq, Eq, Structural)]
pub enum ModeAction {
    /// Keep the data and go on with the next mode.
    Use,
    /// The player is restricted.
    Restricted,
    /// Ask for this mode once more.
    Retry,
    /// The player cannot be fetched this cycle.
    Fail,
}

/// A missing player on the primary mode (mode 0) is restricted; a transient
/// failure is retried once; anything else fails the player.
pub open spec fn mode_action_of(mode: usize, outcome: ModeOutcome, retried: bool) -> ModeAction {
    match outcome {
        ModeOutcome::Found => ModeAction::Use,
        ModeOutcome::NotFound => if mode == 0 && !retried {
            ModeAction::Restricted
        } else {
            ModeAction::Fail
        },
        ModeOutcome::Transient => if retried {
            ModeAction::Fail
        } else {
            ModeAction::Retry
        },
        ModeOutcome::Failed => ModeAction::Fail,
    }
}

pub fn mode_action(mode: usize, outcome: ModeOutcome, retried: bool) -> (r: ModeAction)
    ensures
        r == mode_action_of(mode, outcome, retried),
{
    match outcome {
        ModeOutcome::Found => ModeAction::Use,
        ModeOutcome::NotFound => if mode == 0 && !retried {
            ModeAction::Restricted
        } else {
            ModeAction::Fail
        },
        ModeOutcome::Transient => if retried {
            ModeAction::Fail
        } else {
            ModeAction::Retry
        },
        ModeOutcome::Failed => ModeAction::Fail,
    }
}

/// A request error is the transport's known false alarm: its message starts
/// with `http2 error`.
pub open spec fn retryable_text(message: Seq<char>) -> bool {
    message.len() >= "http2 error"@.len() && message.take("http2 error"@.len() as int)
        == "http2 error"@
}

pub fn is_retryable(message: &str) -> (r: bool)
    ensures
        r == retryable_text(message@),
{
    let cs = chars_of(message);
    let prefix = chars_of("http2 error");
    if cs.len() < prefix.len() {
        return false;
    }
    let mut i: usize = 0;
    while i < prefix.len()
        invariant
            prefix@ == "http2 error"@,
            cs@ == message@,
            prefix@.len() <= cs@.len(),
            i <= prefix@.len(),
            forall|j: int| 0 <= j < i ==> cs@[j] == prefix@[j],
        decreases prefix@.len() - i,
    {
        if cs[i] != prefix[i] {
            proof {
                assert(cs@.take(prefix@.len() as int)[i as int] != prefix@[i as int]);
            }
            return false;
        }
        i += 1;
    }
    proof {
        assert(cs@.take(prefix@.len() as int) =~= prefix@);
    }
    true
}

/// Where the persistence part of a cycle stands.
#[derive(Clone, Copy, Debug, PartialEq, Eq, Structural)]
pub enum Phase {
    AwaitMedals,
    AwaitMedalIds,
    AwaitMedalsStored,
    AwaitRarities,
    Joining,
    Finishing,
    Done,
}

/// What the caller reports back.
#[derive(Clone, Copy, Debug, PartialEq, Eq, Structural)]
pub enum Event {
    /// The medal catalog was fetched, or its fetch failed.
    MedalsFetched { ok: bool },
    /// The stored medal ids were fetched (or not), and whether the catalog
    /// holds ids that are not stored yet.
    MedalIdsFetched { ok: bool, any_new: bool },
    /// Storing the medal catalog has completed.
    MedalsStored,
    /// The stored rarity table was fetched, or its fetch failed.
    RaritiesFetched { ok: bool },
    /// Every background store has completed.
    StoresJoined,
    /// The finish notification has been sent.
    Notified,
}

/// What the caller is to do, in the order given. Store actions other than
/// `StoreMedals` may run in the background until `JoinStores`.
#[derive(Clone, Copy, Debug, PartialEq, Eq, Structural)]
pub enum Action {
    StoreBadges,
    FetchMedals,
    FetchMedalIds,
    StoreMedals,
    StoreNewRarities,
    ComputeRarities,
    FetchRarities,
    StoreRankings,
    StoreRarities,
    JoinStores,
    NotifyFinish,
}

/// The state of a cycle after its players were fetched.
#[derive(Clone, Copy, Debug, PartialEq, Eq, Structural)]
pub struct Cycle {
    pub task: Task,
    pub phase: Phase,
    pub users_empty: bool,
    pub new_medals: bool,
    pub medals_stored: bool,
}

/// Rarities and rankings: nothing without players; computed rarities where
/// the leaderboards were scanned; else the stored table, for rankings.
pub open spec fn rarity_stage(c: Cycle) -> (Cycle, Seq<Action>) {
    if c.users_empty {
        (Cycle { phase: Phase::Joining, ..c }, seq![Action::JoinStores])
    } else if c.task.0 & RARITY == RARITY {
        (
            Cycle { phase: Phase::Joining, ..c },
            seq![Action::ComputeRarities] + (if c.task.0 & RANKING == RANKING {
                seq![Action::StoreRankings]
            } else {
                Seq::empty()
            }) + seq![Action::StoreRarities, Action::JoinStores],
        )
    } else if c.task.0 & RANKING == RANKING {
        (Cycle { phase: Phase::AwaitRarities, ..c }, seq![Action::FetchRarities])
    } else {
        (Cycle { phase: Phase::Joining, ..c }, seq![Action::JoinStores])
    }
}

/// The first actions of a cycle: badges are stored if wanted and any were
/// collected; the medal catalog is fetched unless badges are all the task is.
pub open spec fn start_of(task: Task, users_empty: bool, badges_empty: bool) -> (Cycle, Seq<Action>) {
    let badges = if !badges_empty && task.0 & BADGES == BADGES {
        seq![Action::StoreBadges]
    } else {
        Seq::empty()
    };
    let c = Cycle {
        task,
        phase: Phase::Joining,
        users_empty,
        new_medals: false,
        medals_stored: false,
    };
    if task.0 != BADGES {
        (Cycle { phase: Phase::AwaitMedals, ..c }, badges + seq![Action::FetchMedals])
    } else {
        (c, badges + seq![Action::JoinStores])
    }
}

/// The next state and actions after `e`. The medal catalog is stored, and
/// its completion awaited, before any rarity is stored; new medals get
/// their zero entries right after it. An event that does not fit the
/// phase changes nothing.
pub open spec fn step_of(c: Cycle, e: Event) -> (Cycle, Seq<Action>) {
    let medals = c.task.0 & MEDALS == MEDALS;
    match (c.phase, e) {
        (Phase::AwaitMedals, Event::MedalsFetched { ok }) => if ok {
            (Cycle { phase: Phase::AwaitMedalIds, ..c }, seq![Action::FetchMedalIds])
        } else {
            (Cycle { phase: Phase::Joining, ..c }, seq![Action::JoinStores])
        },
        (Phase::AwaitMedalIds, Event::MedalIdsFetched { ok, any_new }) => {
            let c1 = Cycle { new_medals: ok && any_new && medals, ..c };
            if medals {
                (Cycle { phase: Phase::AwaitMedalsStored, ..c1 }, seq![Action::StoreMedals])
            } else {
                rarity_stage(c1)
            }
        },
        (Phase::AwaitMedalsStored, Event::MedalsStored) => {
            let next = rarity_stage(Cycle { medals_stored: true, ..c });
            (
                next.0,
                (if c.new_medals {
                    seq![Action::StoreNewRarities]
                } else {
                    Seq::empty()
                }) + next.1,
            )
        },
        (Phase::AwaitRarities, Event::RaritiesFetched { ok }) => (
            Cycle { phase: Phase::Joining, ..c },
            if ok {
                seq![Action::StoreRankings, Action::JoinStores]
            } else {
                seq![Action::JoinStores]
            },
        ),
        (Phase::Joining, Event::StoresJoined) => (
            Cycle { phase: Phase::Finishing, ..c },
            seq![Action::NotifyFinish],
        ),
        (Phase::Finishing, Event::Notified) => (Cycle { phase: Phase::Done, ..c }, Seq::empty()),
        _ => (c, Seq::empty()),
    }
}

/// The actions store rarities.
pub open spec fn writes_rarities(acts: Seq<Action>) -> bool {
    exists|i: int|
        0 <= i < acts.len() && (acts[i] == Action::StoreNewRarities || acts[i]
            == Action::StoreRarities)
}

/// Where the task stores the medal catalog, no step stores a rarity before
/// that store has completed: it has, or its completion is the step's event.
/// Where new medals were found, their zero entries are stored first thing
/// after that completion.
pub proof fn lemma_medals_before_rarities(c: Cycle, e: Event)
    requires
        c.task.0 & MEDALS == MEDALS,
    ensures
        writes_rarities(step_of(c, e).1) ==> c.medals_stored || (c.phase
            == Phase::AwaitMedalsStored && e == Event::MedalsStored),
        !writes_rarities(start_of(c.task, c.users_empty, true).1),
        !writes_rarities(start_of(c.task, c.users_empty, false).1),
        c.phase == Phase::AwaitMedalIds && e == (Event::MedalIdsFetched { ok: true, any_new: true })
            ==> step_of(c, e).1 == seq![Action::StoreMedals] && step_of(step_of(c, e).0, Event::MedalsStored).1[0]
            == Action::StoreNewRarities,
{
    let acts = step_of(c, e).1;
    if writes_rarities(acts) {
        let i = choose|i: int|
            0 <= i < acts.len() && (acts[i] == Action::StoreNewRarities || acts[i]
                == Action::StoreRarities);
        match (c.phase, e) {
            (Phase::AwaitMedalsStored, Event::MedalsStored) => {},
            (Phase::AwaitMedalIds, Event::MedalIdsFetched { ok, any_new }) => {
                assert(acts =~= seq![Action::StoreMedals]);
            },
            _ => {},
        }
    }
    let s1 = start_of(c.task, c.users_empty, true).1;
    let s2 = start_of(c.task, c.users_empty, false).1;
    if writes_rarities(s1) {
        let i = choose|i: int|
            0 <= i < s1.len() && (s1[i] == Action::StoreNewRarities || s1[i]
                == Action::StoreRarities);
    }
    if writes_rarities(s2) {
        let i = choose|i: int|
            0 <= i < s2.len() && (s2[i] == Action::StoreNewRarities || s2[i]
                == Action::StoreRarities);
    }
}

fn rarity_stage_exec(c: Cycle, acts: &mut Vec<Action>) -> (r: Cycle)
    ensures
        r == rarity_stage(c).0,
        final(acts)@ == old(acts)@ + rarity_stage(c).1,
{
    let ghost start = acts@;
    if c.users_empty {
        acts.push(Action::JoinStores);
        proof {
            assert(acts@ =~= start + rarity_stage(c).1);
        }
        Cycle { phase: Phase::Joining, ..c }
    } else if c.task.rarity() {
        acts.push(Action::ComputeRarities);
        if c.task.ranking() {
            acts.push(Action::StoreRankings);
        }
        acts.push(Action::StoreRarities);
        acts.push(Action::JoinStores);
        proof {
            assert(acts@ =~= start + rarity_stage(c).1);
        }
        Cycle { phase: Phase::Joining, ..c }
    } else if c.task.ranking() {
        acts.push(Action::FetchRarities);
        proof {
            assert(acts@ =~= start + rarity_stage(c).1);
        }
        Cycle { phase: Phase::AwaitRarities, ..c }
    } else {
        acts.push(Action::JoinStores);
        proof {
            assert(acts@ =~= start + rarity_stage(c).1);
        }
        Cycle { phase: Phase::Joining, ..c }
    }
}

impl Cycle {
    /// Starts the persistence part of a cycle.
    pub fn start(task: Task, users_empty: bool, badges_empty: bool) -> (r: (Cycle, Vec<Action>))
        ensures
            r.0 == start_of(task, users_empty, badges_empty).0,
            r.1@ == start_of(task, users_empty, badges_empty).1,
    {
        let mut acts: Vec<Action> = Vec::new();
        if !badges_empty && task.badges() {
            acts.push(Action::StoreBadges);
        }
        let c = Cycle {
            task,
            phase: Phase::Joining,
            users_empty,
            new_medals: false,
            medals_stored: false,
        };
        if task.0 != BADGES {
            acts.push(Action::FetchMedals);
            proof {
                assert(acts@ =~= start_of(task, users_empty, badges_empty).1);
            }
            (Cycle { phase: Phase::AwaitMedals, ..c }, acts)
        } else {
            acts.push(Action::JoinStores);
            proof {
                assert(acts@ =~= start_of(task, users_empty, badges_empty).1);
            }
            (c, acts)
        }
    }

    /// The next state and the actions that follow the event `e`.
    pub fn step(&self, e: Event) -> (r: (Cycle, Vec<Action>))
        ensures
            r.0 == step_of(*self, e).0,
            r.1@ == step_of(*self, e).1,
    {
        let c = *self;
        let medals = c.task.medals();
        let mut acts: Vec<Action> = Vec::new();
        match (c.phase, e) {
            (Phase::AwaitMedals, Event::MedalsFetched { ok }) => {
                if ok {
                    acts.push(Action::FetchMedalIds);
                    proof {
                        assert(acts@ =~= step_of(c, e).1);
                    }
                    (Cycle { phase: Phase::AwaitMedalIds, ..c }, acts)
                } else {
                    acts.push(Action::JoinStores);
                    proof {
                        assert(acts@ =~= step_of(c, e).1);
                    }
                    (Cycle { phase: Phase::Joining, ..c }, acts)
                }
            },
            (Phase::AwaitMedalIds, Event::MedalIdsFetched { ok, any_new }) => {
                let c1 = Cycle { new_medals: ok && any_new && medals, ..c };
                if medals {
                    acts.push(Action::StoreMedals);
                    proof {
                        assert(acts@ =~= step_of(c, e).1);
                    }
                    (Cycle { phase: Phase::AwaitMedalsStored, ..c1 }, acts)
                } else {
                    let next = rarity_stage_exec(c1, &mut acts);
                    proof {
                        assert(acts@ =~= step_of(c, e).1);
                    }
                    (next, acts)
                }
            },
            (Phase::AwaitMedalsStored, Event::MedalsStored) => {
                if c.new_medals {
                    acts.push(Action::StoreNewRarities);
                }
                let next = rarity_stage_exec(Cycle { medals_stored: true, ..c }, &mut acts);
                proof {
                    assert(acts@ =~= step_of(c, e).1);
                }
                (next, acts)
            },
            (Phase::AwaitRarities, Event::RaritiesFetched { ok }) => {
                if ok {
                    acts.push(Action::StoreRankings);
                }
                acts.push(Action::JoinStores);
                proof {
                    assert(acts@ =~= step_of(c, e).1);
                }
                (Cycle { phase: Phase::Joining, ..c }, acts)
            },
            (Phase::Joining, Event::StoresJoined) => {
                acts.push(Action::NotifyFinish);
                proof {
                    assert(acts@ =~= step_of(c, e).1);
                }
                (Cycle { phase: Phase::Finishing, ..c }, acts)
            },
            (Phase::Finishing, Event::Notified) => {
                proof {
                    assert(acts@ =~= step_of(c, e).1);
                }
                (Cycle { phase: Phase::Done, ..c }, acts)
            },
            _ => {
                proof {
                    assert(acts@ =~= step_of(c, e).1);
                }
                (c, acts)
            },
        }
    }
}

} // verus!

//! Flows that start by themselves. What a schedule may start was read and hashed when it was set;
//! a flow whose file reads differently later is suspended, never started.

use vstd::prelude::*;
use vstd::string::*;

use crate::flow::env::{gap_of, GapDefault};
use crate::flow::graph::Text;
use crate::flow::laws::law_every_run_is_listed;
use crate::flow::run_plan::lemma_status_words;
use crate::flow::runner::{newest_first, run_shots, shots, RunShot, RunSnapshot};
use crate::flow::state::RunState;
use crate::json::{entries, Json, JsonView};
use crate::records::{
    choose_id, chosen_id, drop_all, first_with, keys_of, law_the_first_record_is_found, law_unknown_ids_find_nothing, lemma_first_with,
    lemma_others, others, position, Record,
};
use crate::text::{contains_text, decimal, decimal_u64, opt_str, opt_text, same, texts};

verus! {

pub struct Schedule {
    pub id: String,
    pub flow_path: String,
    /// When it is due.
    pub when: Json,
    /// The hash of the flow's file as it was when the schedule was set.
    pub flow_sha1: String,
    pub enabled: bool,
    /// Why it is suspended, where it is.
    pub suspended: Option<String>,
    /// When it last started a run.
    pub last_run: Option<String>,
}

pub struct ScheduleView {
    pub id: Text,
    pub flow_path: Text,
    pub when: JsonView,
    pub flow_sha1: Text,
    pub enabled: bool,
    pub suspended: Option<Text>,
    pub last_run: Option<Text>,
}

impl View for Schedule {
    type V = ScheduleView;

    open spec fn view(&self) -> ScheduleView {
        ScheduleView {
            id: self.id@,
            flow_path: self.flow_path@,
            when: self.when.model(),
            flow_sha1: self.flow_sha1@,
            enabled: self.enabled,
            suspended: opt_text(self.suspended),
            last_run: opt_text(self.last_run),
        }
    }
}

impl Record for Schedule {
    open spec fn key(self) -> Text {
        self.id@
    }

    fn named(&self, id: &str) -> (r: bool) {
        same(&self.id, id)
    }
}

// ---- setting and deleting ----

/// When the schedule `id` last started a run.
pub open spec fn last_run_of(list: Seq<Schedule>, id: Text) -> Option<Text> {
    match first_with(list, id) {
        Some(s) => opt_text(s.last_run),
        None => None,
    }
}

/// Sets a schedule, a new one or one in place of that of the same id. What it may start is what
/// was hashed just now, nothing suspends it any more, and it keeps its history. `fresh` is an id
/// for a new one.
pub fn schedules_set(
    list: &mut Vec<Schedule>,
    id: Option<String>,
    fresh: String,
    flow_path: String,
    when: Json,
    flow_sha1: String,
    enabled: bool,
) -> (r: String)
    ensures
        ({
            let chosen = chosen_id(old(list)@, opt_text(id), fresh@);
            &&& r@ == chosen
            &&& final(list)@.len() == others(old(list)@, chosen).len() + 1
            &&& final(list)@.drop_last() == others(old(list)@, chosen)
            &&& final(list)@.last()@ == ScheduleView {
                id: chosen,
                flow_path: flow_path@,
                when: when.model(),
                flow_sha1: flow_sha1@,
                enabled,
                suspended: None,
                last_run: last_run_of(old(list)@, chosen),
            }
        }),
{
    let chosen = choose_id(list, id, fresh);
    let last_run = match position(list, &chosen) {
        Some(i) => match &list[i].last_run {
            Some(t) => Some(t.clone()),
            None => None,
        },
        None => None,
    };
    let mut before: Vec<Schedule> = Vec::new();
    std::mem::swap(&mut before, list);
    let mut kept = drop_all(before, &chosen);
    let ghost rest = kept@;
    kept.push(Schedule { id: chosen.clone(), flow_path, when, flow_sha1, enabled, suspended: None, last_run });
    assert(kept@.drop_last() =~= rest);
    *list = kept;
    chosen
}

/// Deletes a schedule; whether there was one.
pub fn schedules_delete(list: &mut Vec<Schedule>, id: &str) -> (r: bool)
    ensures
        r == keys_of(old(list)@).contains(id@),
        final(list)@ == others(old(list)@, id@),
{
    proof { lemma_first_with(list@, id@); }
    let existed = position(list, id).is_some();
    let mut before: Vec<Schedule> = Vec::new();
    std::mem::swap(&mut before, list);
    *list = drop_all(before, id);
    existed
}

/// Once a schedule is set, it is the one that its id finds, with the hash it was set with; once
/// it is deleted, its id finds none.
pub proof fn law_set_schedules_are_found(list: Seq<Schedule>, s: Schedule)
    ensures
        first_with(others(list, s.id@).push(s), s.id@) == Some(s),
        first_with(others(list, s.id@), s.id@) is None,
{
    let kept = others(list, s.id@);
    lemma_others(list, s.id@);
    lemma_first_with(kept, s.id@);
    lemma_found_last(kept, s);
}

proof fn lemma_found_last(kept: Seq<Schedule>, s: Schedule)
    requires
        !keys_of(kept).contains(s.id@),
    ensures
        first_with(kept.push(s), s.id@) == Some(s),
    decreases kept.len(),
{
    if kept.len() > 0 {
        assert(keys_of(kept)[0] != s.id@);
        let rest = kept.drop_first();
        assert(!keys_of(rest).contains(s.id@)) by {
            if keys_of(rest).contains(s.id@) {
                let i = choose|i: int| 0 <= i < keys_of(rest).len() && keys_of(rest)[i] == s.id@;
                assert(keys_of(kept)[i + 1] == s.id@);
            }
        }
        lemma_found_last(rest, s);
        assert(kept.push(s).drop_first() =~= rest.push(s));
        assert(kept.push(s)[0].key() != s.id@);
    }
}

// ---- a tick ----

/// What a look at the schedules that are due comes to.
pub struct TickPlan {
    /// The schedules to go on with.
    pub run_ids: Vec<String>,
    /// How many were due and passed over because the app is locked.
    pub locked_skip_count: usize,
}

/// The schedules to go on with: none while the app is locked.
pub open spec fn planned_ids(due: Seq<Text>, locked: bool) -> Seq<Text> {
    if locked {
        Seq::empty()
    } else {
        due
    }
}

/// Nothing starts while the app is locked: everything that is due is passed over and counted.
pub fn plan_tick(due: Vec<String>, locked: bool) -> (r: TickPlan)
    ensures
        texts(r.run_ids@) == planned_ids(texts(due@), locked),
        r.locked_skip_count == if locked { due@.len() as int } else { 0 },
{
    if locked {
        let run_ids: Vec<String> = Vec::new();
        assert(texts(run_ids@) =~= Seq::<Text>::empty());
        TickPlan { run_ids, locked_skip_count: due.len() }
    } else {
        TickPlan { run_ids: due, locked_skip_count: 0 }
    }
}

/// What is told of the schedules that were passed over: one event for all of them, with their
/// number, and none where there were none.
pub fn skipped_locked(plan: &TickPlan) -> (r: Option<Vec<(String, Json)>>)
    ensures
        r is Some <==> plan.locked_skip_count > 0,
        r matches Some(fields) ==> entries(fields@) == seq![("count"@, JsonView::Number(decimal(plan.locked_skip_count as nat)))],
{
    if plan.locked_skip_count == 0 {
        return None;
    }
    let fields = vec![("count".to_owned(), Json::Number(decimal_u64(plan.locked_skip_count as u64)))];
    assert(entries(fields@) =~= seq![("count"@, JsonView::Number(decimal(plan.locked_skip_count as nat)))]);
    Some(fields)
}

/// What is done about a schedule that is due.
#[derive(PartialEq, Eq, Structural, Clone, Copy, Debug)]
pub enum DueOutcome {
    Suspend,
    AlreadyRunning,
    Start,
}

pub open spec fn due_outcome(consented: Text, fresh: Text, running: bool) -> DueOutcome {
    if fresh != consented {
        DueOutcome::Suspend
    } else if running {
        DueOutcome::AlreadyRunning
    } else {
        DueOutcome::Start
    }
}

/// A schedule whose flow reads differently now is suspended; one whose flow runs already waits.
pub fn decide_due_schedule(schedule: &Schedule, fresh_hash: &str, already_running: bool) -> (r: DueOutcome)
    ensures
        r == due_outcome(schedule@.flow_sha1, fresh_hash@, already_running),
{
    if !same(fresh_hash, &schedule.flow_sha1) {
        DueOutcome::Suspend
    } else if already_running {
        DueOutcome::AlreadyRunning
    } else {
        DueOutcome::Start
    }
}

/// A run of this file is under way.
pub open spec fn has_running(runs: Seq<RunShot>, path: Text) -> bool {
    exists|i: int| 0 <= i < runs.len() && (#[trigger] runs[i]).flow_path == path && runs[i].status == "running"@
}

/// Whether a run of this file is under way.
pub fn flow_path_has_a_running_run(runs: &Vec<RunSnapshot>, path: &str) -> (r: bool)
    ensures
        r == has_running(shots(runs@), path@),
{
    let mut i: usize = 0;
    while i < runs.len()
        invariant
            i <= runs@.len(),
            forall|j: int|
                0 <= j < i ==> !((#[trigger] runs@[j]).flow_path@ == path@ && runs@[j].status@ == "running"@),
        decreases runs@.len() - i,
    {
        if same(&runs[i].flow_path, path) && same(&runs[i].status, "running") {
            assert(shots(runs@)[i as int].flow_path == path@);
            return true;
        }
        i += 1;
    }
    assert forall|j: int| 0 <= j < shots(runs@).len() implies !((#[trigger] shots(runs@)[j]).flow_path == path@ && shots(runs@)[j].status == "running"@) by {
        assert(shots(runs@)[j] == runs@[j]@);
    }
    false
}

/// One look at the schedules that are due: the schedules, those to go on with, the files that were
/// started during it, and whether anything is to be saved.
pub struct Tick {
    pub schedules: Vec<Schedule>,
    pub run_ids: Vec<String>,
    pub started: Vec<String>,
    pub changed: bool,
}

pub struct TickView {
    pub schedules: Seq<ScheduleView>,
    pub run_ids: Seq<Text>,
    pub started: Seq<Text>,
    pub changed: bool,
}

pub open spec fn schedule_views(v: Seq<Schedule>) -> Seq<ScheduleView> {
    v.map_values(|s: Schedule| s@)
}

impl View for Tick {
    type V = TickView;

    open spec fn view(&self) -> TickView {
        TickView {
            schedules: schedule_views(self.schedules@),
            run_ids: texts(self.run_ids@),
            started: texts(self.started@),
            changed: self.changed,
        }
    }
}

/// `i` is the first schedule with this id.
pub open spec fn is_first(v: Seq<ScheduleView>, id: Text, i: int) -> bool {
    0 <= i < v.len() && v[i].id == id && forall|j: int| 0 <= j < i ==> (#[trigger] v[j]).id != id
}

/// The hash that a file comes to; an empty one where it could not be read.
pub open spec fn hash_of(fresh: Option<Text>) -> Text {
    match fresh {
        Some(h) => h,
        None => Seq::empty(),
    }
}

/// What is done about the schedule at `i`.
pub open spec fn outcome_at(t: TickView, i: int, fresh: Option<Text>, runs: Seq<RunShot>) -> DueOutcome {
    let path = t.schedules[i].flow_path;
    due_outcome(t.schedules[i].flow_sha1, hash_of(fresh), has_running(runs, path) || t.started.contains(path))
}

/// What is done about the schedule at `i` during a tick: nothing where it is not one to go on with.
pub open spec fn tick_outcome(t: TickView, i: int, fresh: Option<Text>, runs: Seq<RunShot>) -> Option<DueOutcome> {
    if t.run_ids.contains(t.schedules[i].id) {
        Some(outcome_at(t, i, fresh, runs))
    } else {
        None
    }
}

/// The schedule at `i` suspended.
pub open spec fn with_suspended(t: TickView, i: int) -> TickView {
    TickView {
        schedules: t.schedules.update(i, ScheduleView { suspended: Some("hash-mismatch"@), ..t.schedules[i] }),
        changed: true,
        ..t
    }
}

/// The schedule at `i` started a run at `stamp`.
pub open spec fn with_started(t: TickView, i: int, stamp: Text) -> TickView {
    TickView {
        schedules: t.schedules.update(i, ScheduleView { last_run: Some(stamp), ..t.schedules[i] }),
        started: t.started.push(t.schedules[i].flow_path),
        changed: true,
        ..t
    }
}

impl Tick {
    /// A tick over these schedules, by this plan.
    pub fn new(schedules: Vec<Schedule>, plan: TickPlan) -> (r: Self)
        ensures
            r@.schedules == schedule_views(schedules@),
            r@.run_ids == texts(plan.run_ids@),
            r@.started == Seq::<Text>::empty(),
            !r@.changed,
    {
        let r = Tick { schedules, run_ids: plan.run_ids, started: Vec::new(), changed: false };
        assert(texts(r.started@) =~= Seq::<Text>::empty());
        r
    }

    /// The file of the schedule `id`; none where it was deleted meanwhile.
    pub fn flow_path_of(&self, id: &str) -> (r: Option<String>)
        ensures
            match r {
                Some(p) => forall|i: int| #[trigger] is_first(self@.schedules, id@, i) ==> p@ == self@.schedules[i].flow_path,
                None => forall|i: int| !#[trigger] is_first(self@.schedules, id@, i),
            },
    {
        match position(&self.schedules, id) {
            Some(k) => {
                proof {
                    assert forall|i: int| #[trigger] is_first(self@.schedules, id@, i) implies i == k by {
                        lemma_first_is(self@.schedules, self.schedules@, id@, k as int, i);
                    }
                }
                Some(self.schedules[k].flow_path.clone())
            },
            None => {
                proof { lemma_no_first(self@.schedules, self.schedules@, id@); }
                None
            },
        }
    }

    /// Decides about the schedule `id`, which is due: `fresh_hash` is what its file comes to now,
    /// none where it cannot be read. A schedule to suspend is suspended; one to start is for the
    /// caller to start. None where there is no such schedule, or it is not one to go on with.
    pub fn due(&mut self, id: &str, fresh_hash: Option<&str>, runs: &Vec<RunSnapshot>) -> (r: Option<DueOutcome>)
        ensures
            !old(self)@.run_ids.contains(id@) ==> r is None,
            r is None ==> final(self)@ == old(self)@ && (!old(self)@.run_ids.contains(id@) || forall|i: int| !#[trigger] is_first(old(self)@.schedules, id@, i)),
            forall|i: int|
                #[trigger] is_first(old(self)@.schedules, id@, i) ==> {
                    &&& r == tick_outcome(old(self)@, i, opt_str(fresh_hash), shots(runs@))
                    &&& final(self)@ == if r == Some(DueOutcome::Suspend) { with_suspended(old(self)@, i) } else { old(self)@ }
                },
    {
        if !contains_text(&self.run_ids, id) {
            return None;
        }
        let k: usize = match position(&self.schedules, id) {
            Some(k) => k,
            None => {
                proof { lemma_no_first(self@.schedules, self.schedules@, id@); }
                return None;
            },
        };
        proof {
            assert forall|i: int| #[trigger] is_first(self@.schedules, id@, i) implies i == k by {
                lemma_first_is(self@.schedules, self.schedules@, id@, k as int, i);
            }
        }
        let hash = match fresh_hash {
            Some(h) => h.to_owned(),
            None => String::new(),
        };
        assert(hash@ =~= hash_of(opt_str(fresh_hash)));
        let running = flow_path_has_a_running_run(runs, &self.schedules[k].flow_path) || contains_text(&self.started, &self.schedules[k].flow_path);
        let outcome = decide_due_schedule(&self.schedules[k], &hash, running);
        if outcome == DueOutcome::Suspend {
            let ghost before = self@;
            self.schedules[k].suspended = Some("hash-mismatch".to_owned());
            self.changed = true;
            assert(self@.schedules =~= with_suspended(before, k as int).schedules);
        }
        Some(outcome)
    }

    /// The schedule `id` started a run at `stamp`.
    pub fn started(&mut self, id: &str, stamp: String)
        ensures
            (forall|i: int| !#[trigger] is_first(old(self)@.schedules, id@, i)) ==> final(self)@ == old(self)@,
            forall|i: int| #[trigger] is_first(old(self)@.schedules, id@, i) ==> final(self)@ == with_started(old(self)@, i, stamp@),
    {
        match position(&self.schedules, id) {
            Some(k) => {
                let ghost before = self@;
                proof {
                    assert forall|i: int| #[trigger] is_first(self@.schedules, id@, i) implies i == k by {
                        lemma_first_is(self@.schedules, self.schedules@, id@, k as int, i);
                    }
                    assert(self@.schedules[k as int].id == id@);
                    assert(is_first(self@.schedules, id@, k as int)) by {
                        assert forall|j: int| 0 <= j < k implies (#[trigger] self@.schedules[j]).id != id@ by {
                            assert(self.schedules@[j].key() != id@);
                        }
                    }
                }
                let path = self.schedules[k].flow_path.clone();
                self.schedules[k].last_run = Some(stamp);
                self.started.push(path);
                self.changed = true;
                assert(self@.schedules =~= with_started(before, k as int, stamp@).schedules);
                assert(self@.started =~= with_started(before, k as int, stamp@).started);
            },
            None => {
                proof { lemma_no_first(self@.schedules, self.schedules@, id@); }
            },
        }
    }
}

proof fn lemma_first_is(v: Seq<ScheduleView>, list: Seq<Schedule>, id: Text, k: int, i: int)
    requires
        v == schedule_views(list),
        0 <= k < list.len(),
        list[k].key() == id,
        forall|j: int| 0 <= j < k ==> (#[trigger] list[j]).key() != id,
        is_first(v, id, i),
    ensures
        i == k,
{
    if i < k {
        assert(list[i].key() != id);
        assert(v[i] == list[i]@);
    }
    if k < i {
        assert(v[k].id != id);
    }
}

proof fn lemma_no_first(v: Seq<ScheduleView>, list: Seq<Schedule>, id: Text)
    requires
        v == schedule_views(list),
        !keys_of(list).contains(id),
    ensures
        forall|i: int| !#[trigger] is_first(v, id, i),
{
    assert forall|i: int| !#[trigger] is_first(v, id, i) by {
        if is_first(v, id, i) {
            assert(keys_of(list)[i] == id);
        }
    }
}

/// While the app is locked nothing is started and nothing is suspended, whatever is due; and what a
/// tick does never changes which schedules it may go on with.
pub proof fn law_nothing_starts_while_locked(t: TickView, due: Seq<Text>, i: int, k: int, stamp: Text, fresh: Option<Text>, runs: Seq<RunShot>)
    ensures
        t.run_ids == planned_ids(due, true) ==> tick_outcome(t, i, fresh, runs) is None,
        with_started(t, k, stamp).run_ids == t.run_ids,
        with_suspended(t, k).run_ids == t.run_ids,
{
}

/// A flow starts only while its file reads as it did when the schedule was set.
pub proof fn law_changed_flows_never_start(t: TickView, i: int, fresh: Option<Text>, runs: Seq<RunShot>)
    ensures
        outcome_at(t, i, fresh, runs) == DueOutcome::Start ==> hash_of(fresh) == t.schedules[i].flow_sha1,
        fresh is None && t.schedules[i].flow_sha1.len() > 0 ==> outcome_at(t, i, fresh, runs) == DueOutcome::Suspend,
{
}

/// A flow never runs twice at once: not beside a run that is under way, and not beside one that
/// another schedule of the same file started during the same tick.
pub proof fn law_no_flow_starts_beside_itself(t: TickView, i: int, k: int, stamp: Text, fresh: Option<Text>, runs: Seq<RunShot>)
    requires
        0 <= i < t.schedules.len(),
        0 <= k < t.schedules.len(),
        t.schedules[i].flow_path == t.schedules[k].flow_path,
    ensures
        outcome_at(with_started(t, i, stamp), k, fresh, runs) != DueOutcome::Start,
        has_running(runs, t.schedules[k].flow_path) ==> outcome_at(t, k, fresh, runs) != DueOutcome::Start,
{
    let after = with_started(t, i, stamp);
    assert(after.started[t.started.len() as int] == t.schedules[i].flow_path);
    assert(after.schedules[k].flow_path == t.schedules[k].flow_path);
}

/// A file that was started during a tick stays noted until its end.
pub proof fn law_started_flows_stay_noted(t: TickView, i: int, stamp: Text, path: Text)
    requires
        t.started.contains(path),
    ensures
        with_started(t, i, stamp).started.contains(path),
        with_suspended(t, i).started.contains(path),
{
    let k = choose|k: int| 0 <= k < t.started.len() && t.started[k] == path;
    assert(with_started(t, i, stamp).started[k] == path);
}

/// Runs that start by themselves are gapped: nobody is there to be asked.
pub const SCHEDULED_RUN_AIRGAP: bool = true;

/// No setting takes the gap from a run that starts by itself.
pub proof fn law_scheduled_runs_are_gapped(setting: Json)
    ensures
        gap_of(GapDefault::Frozen(SCHEDULED_RUN_AIRGAP), setting),
{
}

/// A run of a file is under way exactly where some run of that very file is running: what ended,
/// however it ended, is not under way, and neither is a run of another file.
pub proof fn law_only_live_runs_are_under_way(runs: Seq<RunSnapshot>, path: Text)
    ensures
        (forall|k: int| 0 <= k < runs.len() && (#[trigger] runs[k]).flow_path@ == path ==> runs[k].status@ != "running"@) ==> !has_running(
            shots(runs),
            path,
        ),
        forall|k: int|
            0 <= k < runs.len() && (#[trigger] runs[k]).flow_path@ == path && runs[k].status@ == "running"@ ==> has_running(shots(runs), path),
{
    assert forall|k: int| 0 <= k < runs.len() && (#[trigger] runs[k]).flow_path@ == path && runs[k].status@ == "running"@ implies has_running(
        shots(runs),
        path,
    ) by {
        assert(shots(runs)[k] == runs[k]@);
    }
    if has_running(shots(runs), path) {
        if forall|j: int| 0 <= j < runs.len() && (#[trigger] runs[j]).flow_path@ == path ==> runs[j].status@ != "running"@ {
            let i = choose|i: int|
                0 <= i < shots(runs).len() && (#[trigger] shots(runs)[i]).flow_path == path && shots(runs)[i].status == "running"@;
            assert(shots(runs)[i] == runs[i]@);
            assert(runs[i].status@ == "running"@);
        }
    }
}

/// A due schedule that a tick may go on with starts whenever its file still has the hash that was
/// agreed to, every run of the file has ended, and the tick started none of it.
pub proof fn law_due_flows_start_again(t: TickView, i: int, fresh: Text, runs: Seq<RunSnapshot>)
    requires
        0 <= i < t.schedules.len(),
        t.run_ids.contains(t.schedules[i].id),
        fresh == t.schedules[i].flow_sha1,
        !t.started.contains(t.schedules[i].flow_path),
        forall|k: int|
            0 <= k < runs.len() && (#[trigger] runs[k]).flow_path@ == t.schedules[i].flow_path ==> runs[k].status@ == "done"@
                || runs[k].status@ == "failed"@ || runs[k].status@ == "canceled"@,
    ensures
        tick_outcome(t, i, Some(fresh), shots(runs)) == Some(DueOutcome::Start),
{
    lemma_status_words();
    reveal_strlit("running");
    reveal_strlit("done");
    reveal_strlit("failed");
    reveal_strlit("canceled");
    assert("running"@[0] == 'r' && "done"@[0] == 'd' && "failed"@[0] == 'f' && "canceled"@[0] == 'c');
    law_only_live_runs_are_under_way(runs, t.schedules[i].flow_path);
}

/// A due schedule never starts its flow beside a run of it that is registered and running, which
/// it sees in the list of all runs.
pub proof fn law_running_flows_are_seen(runs: Seq<RunState>, list: Seq<RunSnapshot>, k: int, t: TickView, i: int, fresh: Option<Text>)
    requires
        shots(list) == newest_first(run_shots(runs)),
        0 <= k < runs.len(),
        runs[k].status@ == "running"@,
        0 <= i < t.schedules.len(),
        t.schedules[i].flow_path == runs[k].flow_path@,
    ensures
        has_running(shots(list), runs[k].flow_path@),
        tick_outcome(t, i, fresh, shots(list)) != Some(DueOutcome::Start),
{
    law_every_run_is_listed(runs, list);
    let j = choose|j: int|
        0 <= j < list.len() && list[j].id@ == runs[k].id@ && (#[trigger] list[j]).flow_path@ == runs[k].flow_path@ && list[j].status@
            == runs[k].status@ && list[j].started@ == runs[k].started@;
    law_only_live_runs_are_under_way(list, runs[k].flow_path@);
    assert(list[j].flow_path@ == runs[k].flow_path@);
}

/// A schedule whose file cannot be read, or reads otherwise than agreed, is suspended, whatever
/// runs, and a suspension changes nothing but that.
pub proof fn law_changed_flows_are_suspended(t: TickView, i: int, fresh: Option<Text>, runs: Seq<RunShot>)
    requires
        0 <= i < t.schedules.len(),
        t.run_ids.contains(t.schedules[i].id),
        fresh is None ==> t.schedules[i].flow_sha1.len() > 0,
        fresh is Some ==> fresh->0 != t.schedules[i].flow_sha1,
    ensures
        tick_outcome(t, i, fresh, runs) == Some(DueOutcome::Suspend),
        with_suspended(t, i).schedules[i].suspended is Some,
        with_suspended(t, i).schedules[i].last_run == t.schedules[i].last_run,
        with_suspended(t, i).schedules[i].enabled == t.schedules[i].enabled,
        with_suspended(t, i).schedules[i].flow_sha1 == t.schedules[i].flow_sha1,
        forall|k: int| 0 <= k < t.schedules.len() && k != i ==> (#[trigger] with_suspended(t, i).schedules[k]) == t.schedules[k],
        with_suspended(t, i).changed,
{
}

/// A start is written down where it was made and nowhere else: the schedule's last run is the
/// stamp, it stays enabled with the hash agreed to, and every other schedule is as it was.
pub proof fn law_starts_are_written_down(t: TickView, i: int, stamp: Text)
    requires
        0 <= i < t.schedules.len(),
    ensures
        ({
            let u = with_started(t, i, stamp);
            &&& u.schedules.len() == t.schedules.len()
            &&& u.schedules[i].last_run == Some(stamp)
            &&& u.schedules[i].id == t.schedules[i].id
            &&& u.schedules[i].flow_path == t.schedules[i].flow_path
            &&& u.schedules[i].flow_sha1 == t.schedules[i].flow_sha1
            &&& u.schedules[i].suspended == t.schedules[i].suspended
            &&& u.schedules[i].enabled == t.schedules[i].enabled
            &&& u.changed
            &&& u.started.contains(t.schedules[i].flow_path)
            &&& forall|k: int| 0 <= k < t.schedules.len() && k != i ==> (#[trigger] u.schedules[k]) == t.schedules[k]
        }),
{
    let u = with_started(t, i, stamp);
    assert(u.started[t.started.len() as int] == t.schedules[i].flow_path);
}

/// Everything that is due is planned while the app is unlocked, and nothing while it is locked.
pub proof fn law_due_schedules_are_planned(due: Seq<Text>)
    ensures
        planned_ids(due, false) == due,
        planned_ids(due, true).len() == 0,
{
}

/// A schedule that is set again keeps the time of its last run, and a new one has none.
pub proof fn law_last_runs_are_kept(list: Seq<Schedule>, id: Text, i: int)
    ensures
        0 <= i < list.len() && list[i].id@ == id && (forall|j: int| 0 <= j < i ==> (#[trigger] list[j]).id@ != id) ==> last_run_of(list, id)
            == opt_text(list[i].last_run),
        (forall|j: int| 0 <= j < list.len() ==> (#[trigger] list[j]).id@ != id) ==> last_run_of(list, id) is None,
{
    if 0 <= i < list.len() && list[i].id@ == id && (forall|j: int| 0 <= j < i ==> (#[trigger] list[j]).id@ != id) {
        assert forall|j: int| 0 <= j < i implies (#[trigger] list[j]).key() != id by {
            assert(list[j].id@ != id);
        }
        law_the_first_record_is_found(list, id, i);
    }
    if forall|j: int| 0 <= j < list.len() ==> (#[trigger] list[j]).id@ != id {
        assert forall|j: int| 0 <= j < list.len() implies (#[trigger] list[j]).key() != id by {
            assert(list[j].id@ != id);
        }
        law_unknown_ids_find_nothing(list, id);
    }
}

/// A schedule is shown as it is held.
pub proof fn law_schedules_are_seen_as_they_are(s: Schedule)
    ensures
        s@.id == s.id@,
        s@.flow_path == s.flow_path@,
        s@.flow_sha1 == s.flow_sha1@,
        s@.enabled == s.enabled,
        s@.suspended == opt_text(s.suspended),
        s@.last_run == opt_text(s.last_run),
{
}

}

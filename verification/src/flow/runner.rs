//! Background flow runs, transition by transition: what a scheduling step marks, how a launch
//! goes, how a run is cancelled and when it settles.

use vstd::prelude::*;
use vstd::string::*;

use crate::flow::graph::{rows, Text};
use crate::flow::ids::{base36, is_fresh_id, new_run_id};
use crate::flow::run_plan::{derived_status, next_actions, parents_in, run_status, skips, starts, RunPlan};
use crate::flow::state::{has_node, lemma_position, mark, node_views, position, NodeState, NodeView, RunState, RunView};
use crate::text::{copy_texts, less, lex_less, opt_text, same, texts};

verus! {

// ---- snapshots ----

pub struct NodeSnapshot {
    pub id: String,
    pub name: String,
    pub kind: String,
    pub model: Option<String>,
    pub status: String,
    pub started: Option<String>,
    pub ended: Option<String>,
    pub exit: Option<i32>,
    pub log: String,
    pub parents: Vec<String>,
}

pub struct RunSnapshot {
    pub id: String,
    pub flow: String,
    pub flow_path: String,
    pub root: String,
    pub dir: String,
    pub status: String,
    pub canceling: bool,
    pub airgap: bool,
    pub started: String,
    pub ended: Option<String>,
    pub layers: Vec<Vec<String>>,
    pub nodes: Vec<NodeSnapshot>,
}

#[verifier::ext_equal]
pub struct NodeShot {
    pub id: Text,
    pub name: Text,
    pub kind: Text,
    pub model: Option<Text>,
    pub status: Text,
    pub started: Option<Text>,
    pub ended: Option<Text>,
    pub exit: Option<i32>,
    pub log: Text,
    pub parents: Seq<Text>,
}

#[verifier::ext_equal]
pub struct RunShot {
    pub id: Text,
    pub flow: Text,
    pub flow_path: Text,
    pub root: Text,
    pub dir: Text,
    pub status: Text,
    pub canceling: bool,
    pub airgap: bool,
    pub started: Text,
    pub ended: Option<Text>,
    pub layers: Seq<Seq<Text>>,
    pub nodes: Seq<NodeShot>,
}

impl View for NodeSnapshot {
    type V = NodeShot;

    open spec fn view(&self) -> NodeShot {
        NodeShot {
            id: self.id@,
            name: self.name@,
            kind: self.kind@,
            model: opt_text(self.model),
            status: self.status@,
            started: opt_text(self.started),
            ended: opt_text(self.ended),
            exit: self.exit,
            log: self.log@,
            parents: texts(self.parents@),
        }
    }
}

impl View for RunSnapshot {
    type V = RunShot;

    open spec fn view(&self) -> RunShot {
        RunShot {
            id: self.id@,
            flow: self.flow@,
            flow_path: self.flow_path@,
            root: self.root@,
            dir: self.dir@,
            status: self.status@,
            canceling: self.canceling,
            airgap: self.airgap,
            started: self.started@,
            ended: opt_text(self.ended),
            layers: rows(self.layers@),
            nodes: self.nodes@.map_values(|n: NodeSnapshot| n@),
        }
    }
}

/// What a node shows of itself: everything but its command line and its process.
pub open spec fn node_shot(plan: RunPlan, n: NodeView) -> NodeShot {
    NodeShot {
        id: n.id,
        name: n.name,
        kind: n.kind,
        model: n.model,
        status: n.status,
        started: n.started,
        ended: n.ended,
        exit: n.exit,
        log: n.log,
        parents: parents_in(plan, n.id),
    }
}

/// What a run shows of itself.
pub open spec fn shot_of(r: RunView) -> RunShot {
    RunShot {
        id: r.id,
        flow: r.flow,
        flow_path: r.flow_path,
        root: r.root,
        dir: r.dir,
        status: r.status,
        canceling: r.canceling,
        airgap: r.gapped,
        started: r.started,
        ended: r.ended,
        layers: rows(r.plan.layers@),
        nodes: r.nodes.map_values(|n: NodeView| node_shot(r.plan, n)),
    }
}

fn copy_opt(s: &Option<String>) -> (r: Option<String>)
    ensures
        opt_text(r) == opt_text(*s),
{
    match s {
        Some(t) => Some(t.clone()),
        None => None,
    }
}

fn copy_rows(v: &Vec<Vec<String>>) -> (r: Vec<Vec<String>>)
    ensures
        rows(r@) == rows(v@),
{
    let mut out: Vec<Vec<String>> = Vec::new();
    let mut i: usize = 0;
    while i < v.len()
        invariant
            i <= v@.len(),
            out@.len() == i,
            forall|j: int| 0 <= j < i ==> texts((#[trigger] out@[j])@) == texts(v@[j]@),
        decreases v@.len() - i,
    {
        out.push(copy_texts(&v[i]));
        i += 1;
    }
    assert(rows(out@) =~= rows(v@));
    out
}

fn node_snapshot(plan: &RunPlan, n: &NodeState) -> (r: NodeSnapshot)
    ensures
        r@ == node_shot(*plan, n@),
{
    let parents = match plan.parents.get(&n.id) {
        Some(list) => copy_texts(list),
        None => Vec::new(),
    };
    assert(texts(parents@) =~= parents_in(*plan, n.id@));
    NodeSnapshot {
        id: n.id.clone(),
        name: n.name.clone(),
        kind: n.kind.clone(),
        model: copy_opt(&n.model),
        status: n.status.clone(),
        started: copy_opt(&n.started),
        ended: copy_opt(&n.ended),
        exit: n.exit,
        log: n.log.clone(),
        parents,
    }
}

/// What the run shows of itself now.
pub fn run_snapshot(run: &RunState) -> (r: RunSnapshot)
    ensures
        r@ == shot_of(run@),
        r.id@ == run.id@,
        r.flow@ == run.flow@,
        r.flow_path@ == run.flow_path@,
        r.root@ == run.root@,
        r.dir@ == run.dir@,
        r.status@ == run.status@,
        r.started@ == run.started@,
        opt_text(r.ended) == opt_text(run.ended),
        r.canceling == run.canceling,
        r.airgap == run.gapped,
        r.nodes@.len() == run.nodes@.len(),
{
    let mut nodes: Vec<NodeSnapshot> = Vec::new();
    let mut i: usize = 0;
    while i < run.nodes.len()
        invariant
            i <= run.nodes@.len(),
            nodes@.len() == i,
            forall|j: int| 0 <= j < i ==> (#[trigger] nodes@[j])@ == node_shot(run.plan, run.nodes@[j]@),
        decreases run.nodes@.len() - i,
    {
        nodes.push(node_snapshot(&run.plan, &run.nodes[i]));
        i += 1;
    }
    let shot = RunSnapshot {
        id: run.id.clone(),
        flow: run.flow.clone(),
        flow_path: run.flow_path.clone(),
        root: run.root.clone(),
        dir: run.dir.clone(),
        status: run.status.clone(),
        canceling: run.canceling,
        airgap: run.gapped,
        started: run.started.clone(),
        ended: copy_opt(&run.ended),
        layers: copy_rows(&run.plan.layers),
        nodes,
    };
    assert(shot@.nodes =~= shot_of(run@).nodes);
    shot
}

/// `list` with `x` put before the first run that started earlier.
pub open spec fn placed_by_start(list: Seq<RunShot>, x: RunShot) -> Seq<RunShot>
    decreases list.len(),
{
    if list.len() > 0 && lex_less(list.last().started, x.started) {
        placed_by_start(list.drop_last(), x).push(list.last())
    } else {
        list.push(x)
    }
}

/// The runs, newest first; those that started in the same instant in the order they were added.
pub open spec fn newest_first(list: Seq<RunShot>) -> Seq<RunShot>
    decreases list.len(),
{
    if list.len() == 0 {
        Seq::empty()
    } else {
        placed_by_start(newest_first(list.drop_last()), list.last())
    }
}

pub open spec fn shots(v: Seq<RunSnapshot>) -> Seq<RunShot> {
    v.map_values(|s: RunSnapshot| s@)
}

pub open spec fn run_shots(v: Seq<RunState>) -> Seq<RunShot> {
    v.map_values(|r: RunState| shot_of(r@))
}

fn place_by_start(list: &mut Vec<RunSnapshot>, x: RunSnapshot)
    ensures
        shots(final(list)@) == placed_by_start(shots(old(list)@), x@),
{
    let ghost all = shots(list@);
    let mut k: usize = list.len();
    assert(all.take(k as int) =~= all);
    assert(placed_by_start(all, x@) =~= placed_by_start(all.take(k as int), x@) + all.skip(k as int));
    while k > 0 && less(&list[k - 1].started, &x.started)
        invariant
            k <= list@.len(),
            all == shots(list@),
            list@ == old(list)@,
            placed_by_start(all, x@) == placed_by_start(all.take(k as int), x@) + all.skip(k as int),
        decreases k,
    {
        proof {
            assert(all.take(k as int).last() == list@[k - 1]@);
            assert(all.take(k as int).drop_last() =~= all.take(k - 1));
            let shorter = placed_by_start(all.take(k - 1), x@);
            assert(shorter.push(all[k - 1]) + all.skip(k as int) =~= shorter + all.skip(k - 1));
        }
        k -= 1;
    }
    proof {
        if k > 0 {
            assert(all.take(k as int).last() == list@[k - 1]@);
        }
        assert(placed_by_start(all.take(k as int), x@) == all.take(k as int).push(x@));
    }
    list.insert(k, x);
    assert(shots(list@) =~= all.take(k as int).push(x@) + all.skip(k as int));
}


// ---- the event log ----

/// What the event log is told: identifiers only, never a brief or an agent's output.
pub enum FlowEvent {
    RunStarted { run: String, flow: String, nodes: usize },
    NodeChanged { run: String, flow: String, node: String, agent: String, status: String, exit: Option<i32> },
    RunEnded { run: String, flow: String, status: String },
    Canceled { run: String, flow: String },
}

pub enum EventView {
    RunStarted { run: Text, flow: Text, nodes: nat },
    NodeChanged { run: Text, flow: Text, node: Text, agent: Text, status: Text, exit: Option<i32> },
    RunEnded { run: Text, flow: Text, status: Text },
    Canceled { run: Text, flow: Text },
}

impl View for FlowEvent {
    type V = EventView;

    open spec fn view(&self) -> EventView {
        match self {
            FlowEvent::RunStarted { run, flow, nodes } => EventView::RunStarted { run: run@, flow: flow@, nodes: *nodes as nat },
            FlowEvent::NodeChanged { run, flow, node, agent, status, exit } => EventView::NodeChanged {
                run: run@,
                flow: flow@,
                node: node@,
                agent: agent@,
                status: status@,
                exit: *exit,
            },
            FlowEvent::RunEnded { run, flow, status } => EventView::RunEnded { run: run@, flow: flow@, status: status@ },
            FlowEvent::Canceled { run, flow } => EventView::Canceled { run: run@, flow: flow@ },
        }
    }
}

/// One transition: what to log, and what the run shows right after it.
pub struct Transition {
    pub event: FlowEvent,
    pub snapshot: RunSnapshot,
}

pub open spec fn transitions(v: Seq<Transition>) -> Seq<(EventView, RunShot)> {
    v.map_values(|t: Transition| (t.event@, t.snapshot@))
}

/// The event that the node `id` of `r` reached `status`.
pub open spec fn node_event(r: RunView, id: Text, status: Text, exit: Option<i32>) -> EventView {
    EventView::NodeChanged { run: r.id, flow: r.flow, node: id, agent: r.nodes[position(r.nodes, id)].kind, status, exit }
}

/// Marks one node and tells of it; nothing happens to a run without such a node.
pub fn change(run: &mut RunState, id: &str, status: &str, exit: Option<i32>, now: &str) -> (r: Option<Transition>)
    ensures
        final(run)@ == mark(old(run)@, id@, status@, exit, now@),
        r is Some <==> has_node(old(run)@.nodes, id@),
        r matches Some(t) ==> t.event@ == node_event(old(run)@, id@, status@, exit) && t.snapshot@ == shot_of(final(run)@),
{
    let kind = match run.find(id) {
        Some(i) => {
            proof { lemma_position(run@.nodes, id@, i as int); }
            run.nodes[i].kind.clone()
        },
        None => return None,
    };
    run.set_status(id, status, exit, now);
    Some(
        Transition {
            event: FlowEvent::NodeChanged {
                run: run.id.clone(),
                flow: run.flow.clone(),
                node: id.to_owned(),
                agent: kind,
                status: status.to_owned(),
                exit,
            },
            snapshot: run_snapshot(run),
        },
    )
}

/// The run after `ids` were marked one by one.
pub open spec fn mark_all(r: RunView, ids: Seq<Text>, status: Text, now: Text) -> RunView
    decreases ids.len(),
{
    if ids.len() == 0 {
        r
    } else {
        mark(mark_all(r, ids.drop_last(), status, now), ids.last(), status, None, now)
    }
}

/// What there is to tell of marking `ids` one by one.
pub open spec fn marks_told(r: RunView, ids: Seq<Text>, status: Text, now: Text) -> Seq<(EventView, RunShot)>
    decreases ids.len(),
{
    if ids.len() == 0 {
        Seq::empty()
    } else {
        let before = mark_all(r, ids.drop_last(), status, now);
        let told = marks_told(r, ids.drop_last(), status, now);
        if has_node(before.nodes, ids.last()) {
            told.push((node_event(before, ids.last(), status, None), shot_of(mark_all(r, ids, status, now))))
        } else {
            told
        }
    }
}

fn change_all(run: &mut RunState, ids: &Vec<String>, status: &str, now: &str, out: &mut Vec<Transition>)
    ensures
        final(run)@ == mark_all(old(run)@, texts(ids@), status@, now@),
        transitions(final(out)@) == transitions(old(out)@) + marks_told(old(run)@, texts(ids@), status@, now@),
{
    let ghost start = run@;
    let ghost all = texts(ids@);
    let ghost head = transitions(out@);
    let mut i: usize = 0;
    assert(all.take(0) =~= Seq::<Text>::empty());
    assert(head + marks_told(start, all.take(0), status@, now@) =~= head);
    while i < ids.len()
        invariant
            i <= ids@.len(),
            all == texts(ids@),
            run@ == mark_all(start, all.take(i as int), status@, now@),
            transitions(out@) == head + marks_told(start, all.take(i as int), status@, now@),
        decreases ids@.len() - i,
    {
        let ghost told = transitions(out@);
        proof {
            assert(all.take(i + 1).drop_last() =~= all.take(i as int));
            assert(all.take(i + 1).last() == ids@[i as int]@);
        }
        match change(run, &ids[i], status, None, now) {
            Some(t) => {
                let ghost shown = (t.event@, t.snapshot@);
                out.push(t);
                proof {
                    assert(transitions(out@) =~= told.push(shown));
                    assert(told.push(shown) =~= head + marks_told(start, all.take(i as int), status@, now@).push(shown));
                }
            },
            None => {},
        }
        i += 1;
    }
    assert(all.take(all.len() as int) =~= all);
}

// ---- scheduling ----

/// What a scheduling step decided: the nodes to launch now, and what it marked on the way.
pub struct Decision {
    pub start: Vec<String>,
    pub told: Vec<Transition>,
}

/// The run after a scheduling step: everything written off is skipped, everything that starts
/// is running.
pub open spec fn pumped(r: RunView, now: Text) -> RunView {
    if r.ended is Some {
        r
    } else {
        mark_all(mark_all(r, skips(r.plan, r.statuses), "skipped"@, now), starts(r.plan, r.statuses), "running"@, now)
    }
}

/// The nodes a scheduling step launches.
pub open spec fn launches(r: RunView) -> Seq<Text> {
    if r.ended is Some {
        Seq::empty()
    } else {
        starts(r.plan, r.statuses)
    }
}

pub open spec fn pump_told(r: RunView, now: Text) -> Seq<(EventView, RunShot)> {
    if r.ended is Some {
        Seq::empty()
    } else {
        marks_told(r, skips(r.plan, r.statuses), "skipped"@, now) + marks_told(
            mark_all(r, skips(r.plan, r.statuses), "skipped"@, now),
            starts(r.plan, r.statuses),
            "running"@,
            now,
        )
    }
}

/// One scheduling step: asks the plan what may happen and marks it, in one piece. The launch of
/// what it names comes after.
pub fn pump(run: &mut RunState, now: &str) -> (r: Decision)
    ensures
        texts(r.start@) == launches(old(run)@),
        final(run)@ == pumped(old(run)@, now@),
        transitions(r.told@) == pump_told(old(run)@, now@),
{
    let mut told: Vec<Transition> = Vec::new();
    assert(transitions(told@) =~= Seq::<(EventView, RunShot)>::empty());
    if run.ended.is_some() {
        let start: Vec<String> = Vec::new();
        assert(texts(start@) =~= Seq::<Text>::empty());
        return Decision { start, told };
    }
    let next = next_actions(&run.plan, &run.statuses);
    change_all(run, &next.skip, "skipped", now, &mut told);
    let ghost half = transitions(told@);
    assert(half =~= marks_told(old(run)@, skips(old(run)@.plan, old(run)@.statuses), "skipped"@, now@));
    change_all(run, &next.start, "running", now, &mut told);
    Decision { start: next.start, told }
}

/// Some node that was to launch is not running any more: it failed on the way up, and no exit
/// is coming to schedule what follows.
pub open spec fn fell_over(r: RunView, start: Seq<Text>) -> bool {
    exists|i: int|
        0 <= i < start.len() && !(has_node(r.nodes, #[trigger] start[i]) && r.nodes[position(r.nodes, start[i])].status == "running"@)
}

/// Whether to schedule again right away after launching `start`.
pub fn must_pump_again(run: &RunState, start: &Vec<String>) -> (r: bool)
    ensures
        r == fell_over(run@, texts(start@)),
{
    let ghost all = texts(start@);
    let mut i: usize = 0;
    while i < start.len()
        invariant
            i <= start@.len(),
            all == texts(start@),
            forall|j: int| 0 <= j < i ==> has_node(run@.nodes, #[trigger] all[j]) && run@.nodes[position(run@.nodes, all[j])].status == "running"@,
        decreases start@.len() - i,
    {
        assert(all[i as int] == start@[i as int]@);
        match run.find(&start[i]) {
            Some(k) => {
                proof { lemma_position(run@.nodes, all[i as int], k as int); }
                if !same(&run.nodes[k].status, "running") {
                    return true;
                }
            },
            None => return true,
        }
        i += 1;
    }
    false
}

// ---- settling ----

/// No node of the run can change any more.
pub open spec fn all_settled(nodes: Seq<NodeView>) -> bool {
    forall|i: int| 0 <= i < nodes.len() ==> (#[trigger] nodes[i]).status != "pending"@ && nodes[i].status != "running"@
}

/// The status a run ends with: what its nodes say, except that a run being cancelled never ends
/// as done.
pub open spec fn closing_status(r: RunView) -> Text {
    if r.canceling && derived_status(r.statuses) == "done"@ {
        "canceled"@
    } else {
        derived_status(r.statuses)
    }
}

pub open spec fn settles(r: RunView) -> bool {
    r.ended is None && all_settled(r.nodes)
}

pub open spec fn settled(r: RunView, now: Text) -> RunView {
    if settles(r) {
        RunView { status: closing_status(r), ended: Some(now), ..r }
    } else {
        r
    }
}

/// Ends the run once no node can change any more.
pub fn settle_if_done(run: &mut RunState, now: &str) -> (r: Option<Transition>)
    ensures
        final(run)@ == settled(old(run)@, now@),
        r is Some <==> settles(old(run)@),
        r matches Some(t) ==> t.snapshot@ == shot_of(final(run)@) && t.event@ == (EventView::RunEnded {
            run: old(run)@.id,
            flow: old(run)@.flow,
            status: closing_status(old(run)@),
        }),
{
    if run.ended.is_some() {
        return None;
    }
    let mut i: usize = 0;
    while i < run.nodes.len()
        invariant
            i <= run.nodes@.len(),
            run == old(run),
            forall|j: int| 0 <= j < i ==> (#[trigger] run@.nodes[j]).status != "pending"@ && run@.nodes[j].status != "running"@,
        decreases run.nodes@.len() - i,
    {
        assert(run@.nodes[i as int] == run.nodes@[i as int]@);
        if same(&run.nodes[i].status, "pending") || same(&run.nodes[i].status, "running") {
            return None;
        }
        i += 1;
    }
    let derived = run_status(&run.statuses);
    let status = if run.canceling && same(derived, "done") { "canceled" } else { derived };
    run.status = status.to_owned();
    run.ended = Some(now.to_owned());
    assert(run@ =~= settled(old(run)@, now@));
    Some(
        Transition {
            event: FlowEvent::RunEnded { run: run.id.clone(), flow: run.flow.clone(), status: status.to_owned() },
            snapshot: run_snapshot(run),
        },
    )
}


// ---- cancelling ----

/// The ids of the nodes that are still waiting.
pub open spec fn waiting_ids(nodes: Seq<NodeView>) -> Seq<Text>
    decreases nodes.len(),
{
    if nodes.len() == 0 {
        Seq::empty()
    } else {
        let before = waiting_ids(nodes.drop_last());
        if nodes.last().status == "pending"@ {
            before.push(nodes.last().id)
        } else {
            before
        }
    }
}

/// The nodes with a live process, and the processes.
pub open spec fn live_nodes(nodes: Seq<NodeView>) -> Seq<(Text, i32)>
    decreases nodes.len(),
{
    if nodes.len() == 0 {
        Seq::empty()
    } else {
        let before = live_nodes(nodes.drop_last());
        match nodes.last().pid {
            Some(pid) => before.push((nodes.last().id, pid)),
            None => before,
        }
    }
}

pub open spec fn pid_views(v: Seq<(String, i32)>) -> Seq<(Text, i32)> {
    v.map_values(|e: (String, i32)| (e.0@, e.1))
}

/// The run with a kill timer on every live process.
pub open spec fn armed(r: RunView) -> RunView {
    RunView {
        nodes: r.nodes.map_values(|n: NodeView| if n.pid is Some { NodeView { kill_timer: true, ..n } } else { n }),
        ..r
    }
}

/// Cancelling does something only to a run that is neither over nor being cancelled.
pub open spec fn cancellable(r: RunView) -> bool {
    r.ended is None && !r.canceling
}

/// The run on its way down: nothing waits any more, and every live process has a kill timer.
pub open spec fn going_down(r: RunView, now: Text) -> RunView {
    armed(mark_all(RunView { canceling: true, ..r }, waiting_ids(r.nodes), "skipped"@, now))
}

/// The run after it was told to cancel.
pub open spec fn canceled(r: RunView, now: Text) -> RunView {
    if cancellable(r) {
        settled(going_down(r, now), now)
    } else {
        r
    }
}

/// What cancelling a run asks for: the processes to signal, and what to tell, in order.
pub struct Cancellation {
    pub event: FlowEvent,
    pub told: Vec<Transition>,
    pub terminate: Vec<(String, i32)>,
    pub ended: Option<Transition>,
}

/// Cancelling the run `r` comes to `c`.
pub open spec fn takes_down(c: Cancellation, r: RunView, now: Text) -> bool {
    let begun = RunView { canceling: true, ..r };
    &&& c.event@ == (EventView::Canceled { run: r.id, flow: r.flow })
    &&& transitions(c.told@) == marks_told(begun, waiting_ids(r.nodes), "skipped"@, now)
    &&& pid_views(c.terminate@) == live_nodes(r.nodes)
    &&& c.ended is Some <==> settles(going_down(r, now))
    &&& c.ended matches Some(t) ==> t.snapshot@ == shot_of(canceled(r, now)) && t.event@ == (EventView::RunEnded {
        run: r.id,
        flow: r.flow,
        status: closing_status(going_down(r, now)),
    })
}

fn waiting_list(nodes: &Vec<NodeState>) -> (r: Vec<String>)
    ensures
        texts(r@) == waiting_ids(node_views(nodes@)),
{
    let ghost all = node_views(nodes@);
    let mut out: Vec<String> = Vec::new();
    let mut i: usize = 0;
    assert(all.take(0) =~= Seq::<NodeView>::empty());
    assert(texts(out@) =~= Seq::<Text>::empty());
    while i < nodes.len()
        invariant
            i <= nodes@.len(),
            all == node_views(nodes@),
            texts(out@) == waiting_ids(all.take(i as int)),
        decreases nodes@.len() - i,
    {
        let ghost before = texts(out@);
        assert(all.take(i + 1).drop_last() =~= all.take(i as int));
        assert(all.take(i + 1).last() == nodes@[i as int]@);
        if same(&nodes[i].status, "pending") {
            out.push(nodes[i].id.clone());
            assert(texts(out@) =~= before.push(nodes@[i as int].id@));
        }
        i += 1;
    }
    assert(all.take(all.len() as int) =~= all);
    out
}

fn live_list(nodes: &Vec<NodeState>) -> (r: Vec<(String, i32)>)
    ensures
        pid_views(r@) == live_nodes(node_views(nodes@)),
{
    let ghost all = node_views(nodes@);
    let mut out: Vec<(String, i32)> = Vec::new();
    let mut i: usize = 0;
    assert(all.take(0) =~= Seq::<NodeView>::empty());
    assert(pid_views(out@) =~= Seq::<(Text, i32)>::empty());
    while i < nodes.len()
        invariant
            i <= nodes@.len(),
            all == node_views(nodes@),
            pid_views(out@) == live_nodes(all.take(i as int)),
        decreases nodes@.len() - i,
    {
        let ghost before = pid_views(out@);
        assert(all.take(i + 1).drop_last() =~= all.take(i as int));
        assert(all.take(i + 1).last() == nodes@[i as int]@);
        match nodes[i].pid {
            Some(pid) => {
                out.push((nodes[i].id.clone(), pid));
                assert(pid_views(out@) =~= before.push((nodes@[i as int].id@, pid)));
            },
            None => {},
        }
        i += 1;
    }
    assert(all.take(all.len() as int) =~= all);
    out
}

fn arm(run: &mut RunState)
    ensures
        final(run)@ == armed(old(run)@),
{
    let ghost before = run@;
    let mut i: usize = 0;
    while i < run.nodes.len()
        invariant
            i <= run.nodes@.len(),
            run@.nodes.len() == before.nodes.len(),
            run@ == (RunView { nodes: run@.nodes, ..before }),
            forall|j: int| 0 <= j < i ==> #[trigger] run@.nodes[j] == armed(before).nodes[j],
            forall|j: int| i <= j < before.nodes.len() ==> #[trigger] run@.nodes[j] == before.nodes[j],
        decreases run.nodes@.len() - i,
    {
        let ghost now = run@;
        assert(now.nodes[i as int] == before.nodes[i as int]);
        if run.nodes[i].pid.is_some() {
            run.nodes[i].kill_timer = true;
            assert(run@.nodes =~= now.nodes.update(i as int, NodeView { kill_timer: true, ..now.nodes[i as int] }));
            assert(run@ =~= (RunView { nodes: run@.nodes, ..before }));
        }
        assert(run@.nodes[i as int] == armed(before).nodes[i as int]);
        i += 1;
    }
    assert(run@.nodes =~= armed(before).nodes);
}

/// Cancels a run: what waits is written off first, so that the exit of a process about to be
/// killed starts nothing else; then the live processes are to be signalled, each with a kill
/// timer behind it; and a run with nothing live ends at once. `None` for a run that is over or
/// already being cancelled, which stays as it is.
pub fn cancel(run: &mut RunState, now: &str) -> (r: Option<Cancellation>)
    ensures
        final(run)@ == canceled(old(run)@, now@),
        r is Some <==> cancellable(old(run)@),
        r matches Some(c) ==> takes_down(c, old(run)@, now@),
{
    if run.ended.is_some() || run.canceling {
        return None;
    }
    let event = FlowEvent::Canceled { run: run.id.clone(), flow: run.flow.clone() };
    run.canceling = true;
    let ghost begun = run@;
    let waiting = waiting_list(&run.nodes);
    let terminate = live_list(&run.nodes);
    let mut told: Vec<Transition> = Vec::new();
    assert(transitions(told@) =~= Seq::<(EventView, RunShot)>::empty());
    change_all(run, &waiting, "skipped", now, &mut told);
    assert(transitions(told@) =~= marks_told(begun, waiting_ids(begun.nodes), "skipped"@, now@));
    arm(run);
    proof { lemma_mark_all_frame(begun, waiting_ids(begun.nodes), "skipped"@, now@); }
    let ended = settle_if_done(run, now);
    Some(Cancellation { event, told, terminate, ended })
}

/// Marking nodes changes nothing of a run but its nodes and its status table.
pub proof fn lemma_mark_all_frame(r: RunView, ids: Seq<Text>, status: Text, now: Text)
    ensures
        ({
            let m = mark_all(r, ids, status, now);
            m == (RunView { nodes: m.nodes, statuses: m.statuses, ..r })
        }),
    decreases ids.len(),
{
    if ids.len() > 0 {
        lemma_mark_all_frame(r, ids.drop_last(), status, now);
    }
}

/// Whom a kill timer that fires now is to kill: the process the node has at this moment, if it
/// has one.
pub fn kill_target(run: &RunState, node_id: &str) -> (r: Option<i32>)
    ensures
        r == if has_node(run@.nodes, node_id@) { run@.nodes[position(run@.nodes, node_id@)].pid } else { None },
{
    match run.find(node_id) {
        Some(i) => {
            proof { lemma_position(run@.nodes, node_id@, i as int); }
            run.nodes[i].pid
        },
        None => None,
    }
}

// ---- every run of the session ----

/// The runs that were started, in that order. None is ever dropped.
pub struct Runner {
    pub runs: Vec<RunState>,
}

pub open spec fn run_ids(v: Seq<RunState>) -> Seq<Text> {
    v.map_values(|r: RunState| r.id@)
}

pub open spec fn run_views(v: Seq<RunState>) -> Seq<RunView> {
    v.map_values(|r: RunState| r@)
}

impl Runner {
    /// No two runs share an id.
    pub open spec fn well_formed(self) -> bool {
        run_ids(self.runs@).no_duplicates()
    }

    pub fn new() -> (r: Self)
        ensures
            r.well_formed(),
            r.runs@.len() == 0,
    {
        Runner { runs: Vec::new() }
    }

    /// An id for a run that starts now.
    pub fn new_run_id(&self, millis: u128) -> (r: String)
        requires
            self.runs@.len() < u64::MAX - 1,
        ensures
            is_fresh_id(run_ids(self.runs@), base36(millis as nat), r@),
    {
        let mut taken: Vec<String> = Vec::new();
        let mut i: usize = 0;
        while i < self.runs.len()
            invariant
                i <= self.runs@.len(),
                taken@.len() == i,
                forall|j: int| 0 <= j < i ==> (#[trigger] taken@[j])@ == self.runs@[j].id@,
            decreases self.runs@.len() - i,
        {
            taken.push(self.runs[i].id.clone());
            i += 1;
        }
        assert(texts(taken@) =~= run_ids(self.runs@));
        new_run_id(&taken, millis)
    }

    /// Takes in a run that starts.
    pub fn register(&mut self, run: RunState)
        requires
            old(self).well_formed(),
            !run_ids(old(self).runs@).contains(run.id@),
        ensures
            final(self).runs@ == old(self).runs@.push(run),
            final(self).well_formed(),
    {
        let ghost before = run_ids(self.runs@);
        let ghost id = run.id@;
        self.runs.push(run);
        proof {
            assert(run_ids(self.runs@) =~= before.push(id));
            assert forall|i: int, j: int| 0 <= i < j < run_ids(self.runs@).len() implies #[trigger] run_ids(self.runs@)[i]
                != #[trigger] run_ids(self.runs@)[j] by {
                assert(run_ids(self.runs@)[i] == before[i]);
                assert(before.contains(before[i]));
            }
        }
    }
}

impl Default for Runner {
    fn default() -> (r: Self)
        ensures
            r.well_formed(),
            r.runs@.len() == 0,
    {
        Runner::new()
    }
}

/// Every run, newest first.
pub fn snapshot_all(runner: &Runner) -> (r: Vec<RunSnapshot>)
    ensures
        shots(r@) == newest_first(run_shots(runner.runs@)),
{
    let mut list: Vec<RunSnapshot> = Vec::new();
    let ghost all = run_shots(runner.runs@);
    let mut i: usize = 0;
    assert(all.take(0) =~= Seq::<RunShot>::empty());
    assert(shots(list@) =~= Seq::<RunShot>::empty());
    while i < runner.runs.len()
        invariant
            i <= runner.runs@.len(),
            all == run_shots(runner.runs@),
            shots(list@) == newest_first(all.take(i as int)),
        decreases runner.runs@.len() - i,
    {
        assert(all.take(i + 1).drop_last() =~= all.take(i as int));
        assert(all.take(i + 1).last() == shot_of(runner.runs@[i as int]@));
        place_by_start(&mut list, run_snapshot(&runner.runs[i]));
        i += 1;
    }
    assert(all.take(all.len() as int) =~= all);
    list
}

/// `i` is the position of the run `id`.
pub open spec fn is_run_at(runs: Seq<RunState>, id: Text, i: int) -> bool {
    0 <= i < runs.len() && runs[i].id@ == id && forall|j: int| 0 <= j < i ==> (#[trigger] runs[j]).id@ != id
}

pub fn find_run(runner: &Runner, id: &str) -> (r: Option<usize>)
    ensures
        match r {
            Some(i) => is_run_at(runner.runs@, id@, i as int),
            None => !run_ids(runner.runs@).contains(id@),
        },
{
    let mut i: usize = 0;
    while i < runner.runs.len()
        invariant
            i <= runner.runs@.len(),
            forall|j: int| 0 <= j < i ==> #[trigger] run_ids(runner.runs@)[j] != id@,
        decreases runner.runs@.len() - i,
    {
        if same(&runner.runs[i].id, id) {
            assert forall|j: int| 0 <= j < i implies (#[trigger] runner.runs@[j]).id@ != id@ by {
                assert(run_ids(runner.runs@)[j] != id@);
            }
            return Some(i);
        }
        i += 1;
    }
    None
}

/// The answer to a request to cancel.
pub enum CancelReply {
    NoSuchRun,
    AlreadyOver,
    Canceled(Cancellation),
}

/// Cancels the run `id`. An unknown run is an error; one that is over, or being cancelled
/// already, is left alone.
pub fn cancel_run(runner: &mut Runner, id: &str, now: &str) -> (r: CancelReply)
    ensures
        old(runner).well_formed() ==> final(runner).well_formed(),
        r is NoSuchRun <==> !run_ids(old(runner).runs@).contains(id@),
        r is NoSuchRun ==> run_views(final(runner).runs@) == run_views(old(runner).runs@),
        forall|i: int| #[trigger]
            is_run_at(old(runner).runs@, id@, i) ==> {
                let was = old(runner).runs@[i]@;
                &&& run_views(final(runner).runs@) == run_views(old(runner).runs@).update(i, canceled(was, now@))
                &&& r is Canceled <==> cancellable(was)
                &&& r matches CancelReply::Canceled(c) ==> takes_down(c, was, now@)
            },
{
    match find_run(runner, id) {
        None => {
            proof {
                assert forall|i: int| !#[trigger] is_run_at(runner.runs@, id@, i) by {
                    if is_run_at(runner.runs@, id@, i) {
                        assert(run_ids(runner.runs@)[i] == id@);
                    }
                }
            }
            CancelReply::NoSuchRun
        },
        Some(k) => {
            let ghost before = run_views(runner.runs@);
            let reply = cancel(&mut runner.runs[k], now);
            proof {
                assert forall|i: int| #[trigger] is_run_at(old(runner).runs@, id@, i) implies i == k by {
                    if i < k {
                        assert(old(runner).runs@[i].id@ != id@);
                    }
                    if k < i {
                        assert(old(runner).runs@[k as int].id@ != id@);
                    }
                }
                let was = old(runner).runs@[k as int]@;
                assert(run_views(runner.runs@) =~= before.update(k as int, canceled(was, now@)));
                lemma_mark_all_frame(RunView { canceling: true, ..was }, waiting_ids(was.nodes), "skipped"@, now@);
                assert(run_ids(old(runner).runs@)[k as int] == id@);
                assert forall|i: int| 0 <= i < runner.runs@.len() implies #[trigger] run_ids(runner.runs@)[i] == run_ids(
                    old(runner).runs@,
                )[i] by {
                    assert(run_views(runner.runs@)[i].id == run_ids(runner.runs@)[i]);
                    assert(before[i].id == run_ids(old(runner).runs@)[i]);
                }
                assert(run_ids(runner.runs@) =~= run_ids(old(runner).runs@));
            }
            match reply {
                Some(c) => CancelReply::Canceled(c),
                None => CancelReply::AlreadyOver,
            }
        },
    }
}

/// The processes of every run, in order.
pub open spec fn all_live(runs: Seq<RunView>) -> Seq<(Text, i32)>
    decreases runs.len(),
{
    if runs.len() == 0 {
        Seq::empty()
    } else {
        all_live(runs.drop_last()) + live_nodes(runs.last().nodes)
    }
}

/// On the way out: every run is being cancelled, and every live process is to be killed.
pub fn kill_all(runner: &mut Runner) -> (r: Vec<(String, i32)>)
    ensures
        old(runner).well_formed() ==> final(runner).well_formed(),
        run_views(final(runner).runs@) == run_views(old(runner).runs@).map_values(|v: RunView| RunView { canceling: true, ..v }),
        pid_views(r@) == all_live(run_views(old(runner).runs@)),
{
    let ghost before = run_views(runner.runs@);
    let ghost f = |v: RunView| RunView { canceling: true, ..v };
    let mut out: Vec<(String, i32)> = Vec::new();
    let mut i: usize = 0;
    assert(before.take(0) =~= Seq::<RunView>::empty());
    assert(pid_views(out@) =~= Seq::<(Text, i32)>::empty());
    while i < runner.runs.len()
        invariant
            i <= runner.runs@.len(),
            runner.runs@.len() == before.len(),
            f == (|v: RunView| RunView { canceling: true, ..v }),
            forall|j: int| 0 <= j < i ==> #[trigger] run_views(runner.runs@)[j] == f(before[j]),
            forall|j: int| i <= j < before.len() ==> #[trigger] run_views(runner.runs@)[j] == before[j],
            pid_views(out@) == all_live(before.take(i as int)),
        decreases runner.runs@.len() - i,
    {
        let ghost now = run_views(runner.runs@);
        proof {
            assert(now[i as int] == before[i as int]);
            assert(before.take(i + 1).drop_last() =~= before.take(i as int));
            assert(before.take(i + 1).last() == runner.runs@[i as int]@);
        }
        let ghost sofar = pid_views(out@);
        let mut more = live_list(&runner.runs[i].nodes);
        let ghost added = pid_views(more@);
        out.append(&mut more);
        assert(pid_views(out@) =~= sofar + added);
        runner.runs[i].canceling = true;
        proof {
            assert(run_views(runner.runs@) =~= now.update(i as int, f(now[i as int])));
        }
        i += 1;
    }
    assert(before.take(before.len() as int) =~= before);
    assert(run_views(runner.runs@) =~= before.map_values(f));
    proof {
        assert forall|i: int| 0 <= i < runner.runs@.len() implies #[trigger] run_ids(runner.runs@)[i] == run_ids(old(runner).runs@)[i] by {
            assert(run_views(runner.runs@)[i].id == run_ids(runner.runs@)[i]);
            assert(before[i].id == run_ids(old(runner).runs@)[i]);
        }
        assert(run_ids(runner.runs@) =~= run_ids(old(runner).runs@));
    }
    out
}

}

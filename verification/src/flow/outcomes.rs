//! What comes of a run, said of its nodes and fields one by one.

use vstd::prelude::*;
use vstd::seq_lib::*;
use vstd::string::*;

use crate::flow::graph::{cyclic, distinct, law_every_node_placed_once, live, Text};
use crate::flow::launch::{after_exit, with_process, wrapped, SandboxWrap};
use crate::flow::laws::lemma_mark_all;
use crate::flow::run_plan::{
    blocking, derived_status, doomed, eligible, is_live, is_plan, law_only_pending_is_skipped, law_skips_are_the_downstream_cone,
    law_starts_are_fresh, nodes_of, parents_in, parents_of, room, running_nodes, skips, some_status, startable, starts, status_of, terminal,
    RunLike, RunPlan,
};
use crate::flow::runner::{
    all_live, armed, cancellable, canceled, launches, lemma_mark_all_frame, live_nodes, mark_all, marks_told, node_event, pumped, settled,
    settles, takes_down, waiting_ids, Cancellation, EventView,
};
use crate::flow::start::{fresh_node, run_dir_text, FlowDoc};
use crate::flow::state::{consistent, has_node, is_at, lemma_position, mark, mark_node, position, NodeView, RunView};
use crate::paths::{inside, law_joined_names_are_inside, path_join, path_parts, plain_name, Part};
use crate::text::{opt_text, texts};

verus! {

// ---- statuses ----

proof fn lemma_words()
    ensures
        "pending"@ != "running"@,
        "pending"@ != "done"@,
        "pending"@ != "failed"@,
        "pending"@ != "canceled"@,
        "pending"@ != "skipped"@,
        "running"@ != "done"@,
        "running"@ != "failed"@,
        "running"@ != "canceled"@,
        "running"@ != "skipped"@,
        "done"@ != "failed"@,
        "done"@ != "canceled"@,
        "done"@ != "skipped"@,
        "failed"@ != "canceled"@,
        "failed"@ != "skipped"@,
        "canceled"@ != "skipped"@,
{
    reveal_strlit("pending");
    reveal_strlit("running");
    reveal_strlit("done");
    reveal_strlit("failed");
    reveal_strlit("canceled");
    reveal_strlit("skipped");
    assert("pending"@[0] == 'p' && "running"@[0] == 'r' && "done"@[0] == 'd');
    assert("failed"@[0] == 'f' && "canceled"@[0] == 'c' && "skipped"@[0] == 's');
}

/// A status ends a node exactly where it is done, failed, canceled or skipped; and all of these but
/// done write off what is downstream.
pub proof fn law_four_statuses_end_a_node(s: Text)
    ensures
        terminal(s) <==> s == "done"@ || s == "failed"@ || s == "canceled"@ || s == "skipped"@,
        blocking(s) <==> s == "failed"@ || s == "canceled"@ || s == "skipped"@,
{
}

/// A run goes on while some node waits or runs; once none does it was cancelled where some node
/// was, else it failed where some node did, else it is done, skipped nodes or not.
pub proof fn law_the_nodes_decide_the_status(state: Map<Text, Text>)
    ensures
        (exists|id: Text| state.contains_key(id) && (#[trigger] state[id] == "pending"@ || state[id] == "running"@)) ==> derived_status(state)
            == "running"@,
        all_ended(state) && (exists|id: Text| state.contains_key(id) && #[trigger] state[id] == "canceled"@) ==> derived_status(state)
            == "canceled"@,
        all_ended(state) && (exists|id: Text| state.contains_key(id) && #[trigger] state[id] == "failed"@) && !(exists|id: Text|
            state.contains_key(id) && #[trigger] state[id] == "canceled"@) ==> derived_status(state) == "failed"@,
        (forall|id: Text| state.contains_key(id) ==> (#[trigger] state[id] == "done"@ || state[id] == "skipped"@)) ==> derived_status(state)
            == "done"@,
{
    lemma_words();
    let going = |s: Text| !terminal(s);
    let was_canceled = |s: Text| s == "canceled"@;
    let has_failed = |s: Text| s == "failed"@;
    if exists|id: Text| state.contains_key(id) && (#[trigger] state[id] == "pending"@ || state[id] == "running"@) {
        let id = choose|id: Text| state.contains_key(id) && (#[trigger] state[id] == "pending"@ || state[id] == "running"@);
        assert(going(state[id]));
        assert(some_status(state, going));
    }
    if all_ended(state) {
        assert(!some_status(state, going));
        if exists|id: Text| state.contains_key(id) && #[trigger] state[id] == "canceled"@ {
            let id = choose|id: Text| state.contains_key(id) && #[trigger] state[id] == "canceled"@;
            assert(was_canceled(state[id]));
            assert(some_status(state, was_canceled));
        } else {
            assert(!some_status(state, was_canceled));
            if exists|id: Text| state.contains_key(id) && #[trigger] state[id] == "failed"@ {
                let id = choose|id: Text| state.contains_key(id) && #[trigger] state[id] == "failed"@;
                assert(has_failed(state[id]));
                assert(some_status(state, has_failed));
            }
        }
    }
    if forall|id: Text| state.contains_key(id) ==> (#[trigger] state[id] == "done"@ || state[id] == "skipped"@) {
        assert(!some_status(state, going));
        assert(!some_status(state, was_canceled));
        assert(!some_status(state, has_failed));
    }
}

/// Every node has ended one way or another.
pub open spec fn all_ended(state: Map<Text, Text>) -> bool {
    forall|id: Text|
        state.contains_key(id) ==> (#[trigger] state[id] == "done"@ || state[id] == "failed"@ || state[id] == "canceled"@ || state[id]
            == "skipped"@)
}

/// A run counts as live exactly while its status is that it is running.
pub proof fn law_live_runs_are_running(r: RunLike)
    ensures
        is_live(Some(r)) <==> r.status@ == "running"@,
        !is_live(None),
{
}

// ---- parents ----

/// The parents of a node are the sources of the edges into it, each once: no more and no fewer.
pub proof fn law_parents_are_the_sources(es: Seq<(Text, Text)>, id: Text)
    ensures
        forall|f: Text| #[trigger] parents_of(es, id).contains(f) <==> es.contains((f, id)),
        parents_of(es, id).no_duplicates(),
    decreases es.len(),
{
    if es.len() > 0 {
        let rest = es.drop_last();
        law_parents_are_the_sources(rest, id);
        let before = parents_of(rest, id);
        let all = parents_of(es, id);
        assert forall|f: Text| #[trigger] all.contains(f) <==> es.contains((f, id)) by {
            assert(before.contains(f) <==> rest.contains((f, id)));
            if rest.contains((f, id)) {
                let k = choose|k: int| 0 <= k < rest.len() && rest[k] == (f, id);
                assert(es[k] == (f, id));
                let j = choose|j: int| 0 <= j < before.len() && before[j] == f;
                assert(all[j] == f);
            }
            if es.contains((f, id)) && !rest.contains((f, id)) {
                let k = choose|k: int| 0 <= k < es.len() && es[k] == (f, id);
                if k < rest.len() {
                    assert(rest[k] == (f, id));
                }
                assert(all[before.len() as int] == f);
            }
            if all.contains(f) && !before.contains(f) {
                let j = choose|j: int| 0 <= j < all.len() && all[j] == f;
                assert(j == before.len());
                assert(es[es.len() - 1] == (f, id));
            }
        }
    }
}

/// What a plan holds of a node are the sources of the edges into it between nodes of the flow.
pub proof fn law_plans_know_the_parents(plan: RunPlan, ids: Seq<Text>, edges: Seq<(Text, Text)>, id: Text, f: Text)
    requires
        is_plan(plan, ids, edges),
        ids.contains(id),
    ensures
        parents_in(plan, id).contains(f) <==> ids.contains(f) && edges.contains((f, id)),
{
    let p = |e: (Text, Text)| ids.contains(e.0) && ids.contains(e.1);
    let es = edges.filter(p);
    assert(ids.to_set().contains(id));
    assert(plan.parents@.dom().contains(id));
    assert(texts(plan.parents@[id]@) == parents_of(live(ids, edges), id));
    law_parents_are_the_sources(es, id);
    assert(parents_in(plan, id) == parents_of(es, id));
    if es.contains((f, id)) {
        edges.lemma_filter_contains_rev(p, (f, id));
        let k = choose|k: int| 0 <= k < es.len() && es[k] == (f, id);
        edges.lemma_filter_pred(p, k);
    }
    if ids.contains(f) && edges.contains((f, id)) {
        let k = choose|k: int| 0 <= k < edges.len() && edges[k] == (f, id);
        edges.lemma_filter_contains(p, k);
    }
}

// ---- transitions ----

proof fn lemma_at(r: RunView, i: int)
    requires
        consistent(r),
        0 <= i < r.nodes.len(),
    ensures
        has_node(r.nodes, r.nodes[i].id),
        position(r.nodes, r.nodes[i].id) == i,
{
    let id = r.nodes[i].id;
    assert(is_at(r.nodes, id, i)) by {
        assert forall|j: int| 0 <= j < i implies (#[trigger] r.nodes[j]).id != id by {
            assert(r.nodes[j].id != r.nodes[i].id);
        }
    }
    lemma_position(r.nodes, id, i);
}

/// The run is the same run as before: what tells which run it is, of which file, where and since
/// when has not changed.
pub open spec fn same_run(a: RunView, b: RunView) -> bool {
    &&& a.id == b.id
    &&& a.flow == b.flow
    &&& a.flow_path == b.flow_path
    &&& a.root == b.root
    &&& a.dir == b.dir
    &&& a.gapped == b.gapped
    &&& a.started == b.started
    &&& a.plan == b.plan
    &&& a.nodes.len() == b.nodes.len()
}

/// The node is the same node as before.
pub open spec fn same_node(a: NodeView, b: NodeView) -> bool {
    &&& a.id == b.id
    &&& a.name == b.name
    &&& a.kind == b.kind
    &&& a.model == b.model
    &&& a.log == b.log
    &&& a.inner_argv == b.inner_argv
}

/// Marking a node changes that node alone: it has the status, it keeps its process and what it
/// is, and nothing else of the run changes.
pub proof fn law_marking_touches_one_node(r: RunView, i: int, status: Text, exit: Option<i32>, now: Text)
    requires
        consistent(r),
        0 <= i < r.nodes.len(),
    ensures
        ({
            let m = mark(r, r.nodes[i].id, status, exit, now);
            &&& same_run(m, r)
            &&& m.status == r.status && m.ended == r.ended && m.canceling == r.canceling
            &&& m.nodes[i].status == status
            &&& same_node(m.nodes[i], r.nodes[i])
            &&& m.nodes[i].pid == r.nodes[i].pid
            &&& m.nodes[i].kill_timer == r.nodes[i].kill_timer
            &&& forall|j: int| 0 <= j < r.nodes.len() && j != i ==> (#[trigger] m.nodes[j]) == r.nodes[j]
        }),
{
    lemma_at(r, i);
}

/// A node starts when it runs and ends when it stops after it ran: the time it started is never
/// changed by its end, and an exit code that there is is kept.
pub proof fn law_nodes_start_and_end(n: NodeView, now: Text, later: Text, status: Text, exit: Option<i32>)
    requires
        status != "running"@,
    ensures
        ({
            let up = mark_node(n, "running"@, None, now);
            let down = mark_node(up, status, exit, later);
            &&& up.status == "running"@ && up.started == Some(now) && up.ended == n.ended && up.exit == n.exit
            &&& down.status == status && down.started == Some(now) && down.ended == Some(later)
            &&& exit is Some ==> down.exit == exit
            &&& exit is None ==> down.exit == n.exit
        }),
{
}

/// A node's process is the node's: nothing else of it changes when one comes up, and no other
/// node gets it.
pub proof fn law_processes_belong_to_their_node(r: RunView, i: int, pid: Option<i32>, timer: bool)
    requires
        consistent(r),
        0 <= i < r.nodes.len(),
    ensures
        ({
            let m = with_process(r, r.nodes[i].id, pid, timer);
            &&& same_run(m, r)
            &&& m.status == r.status && m.ended == r.ended && m.canceling == r.canceling && m.statuses == r.statuses
            &&& m.nodes[i].pid == pid
            &&& m.nodes[i].kill_timer == timer
            &&& same_node(m.nodes[i], r.nodes[i])
            &&& m.nodes[i].status == r.nodes[i].status
            &&& m.nodes[i].started == r.nodes[i].started
            &&& forall|j: int| 0 <= j < r.nodes.len() && j != i ==> (#[trigger] m.nodes[j]) == r.nodes[j]
        }),
{
    lemma_at(r, i);
}

/// When the process of a node exits the node has the exit code, has ended now where it had started,
/// and is done on zero, failed on anything else, canceled where the run is being cancelled; no
/// other node is touched.
pub proof fn law_exits_end_their_node(r: RunView, i: int, code: Option<i32>, now: Text)
    requires
        consistent(r),
        0 <= i < r.nodes.len(),
    ensures
        ({
            let m = after_exit(r, r.nodes[i].id, code, now);
            &&& same_run(m, r)
            &&& m.status == r.status && m.ended == r.ended && m.canceling == r.canceling
            &&& same_node(m.nodes[i], r.nodes[i])
            &&& r.canceling ==> m.nodes[i].status == "canceled"@
            &&& !r.canceling && code == Some(0i32) ==> m.nodes[i].status == "done"@
            &&& !r.canceling && code != Some(0i32) ==> m.nodes[i].status == "failed"@
            &&& code is Some ==> m.nodes[i].exit == code
            &&& r.nodes[i].started is Some ==> m.nodes[i].ended == Some(now)
            &&& m.nodes[i].started == r.nodes[i].started
            &&& m.nodes[i].pid is None
            &&& !m.nodes[i].kill_timer
            &&& forall|j: int| 0 <= j < r.nodes.len() && j != i ==> (#[trigger] m.nodes[j]) == r.nodes[j]
        }),
{
    lemma_words();
    lemma_at(r, i);
    let id = r.nodes[i].id;
    let quiet = with_process(r, id, None, false);
    assert(is_at(quiet.nodes, id, i)) by {
        assert forall|j: int| 0 <= j < i implies (#[trigger] quiet.nodes[j]).id != id by {
            assert(r.nodes[j].id != r.nodes[i].id);
        }
    }
    lemma_position(quiet.nodes, id, i);
}

/// A scheduling step brings up what it launches and writes off what can never run: of a run that
/// goes on, each node that is launched runs since now, each that is written off is skipped, and
/// every other node is as it was.
pub proof fn law_a_step_marks_what_it_decides(r: RunView, now: Text, i: int)
    requires
        consistent(r),
        r.ended is None,
        0 <= i < r.nodes.len(),
    ensures
        ({
            let m = pumped(r, now);
            let id = r.nodes[i].id;
            &&& same_run(m, r)
            &&& m.nodes[i].id == id
            &&& launches(r).contains(id) ==> m.nodes[i].status == "running"@
            &&& !launches(r).contains(id) && skips(r.plan, r.statuses).contains(id) ==> m.nodes[i].status == "skipped"@
            &&& !launches(r).contains(id) && !skips(r.plan, r.statuses).contains(id) ==> m.nodes[i].status == r.nodes[i].status
            &&& m.canceling == r.canceling && m.ended == r.ended && m.status == r.status
        }),
        launches(r).len() <= 2,
{
    let half = mark_all(r, skips(r.plan, r.statuses), "skipped"@, now);
    lemma_mark_all(r, skips(r.plan, r.statuses), "skipped"@, now);
    lemma_mark_all(half, starts(r.plan, r.statuses), "running"@, now);
    lemma_mark_all_frame(r, skips(r.plan, r.statuses), "skipped"@, now);
    lemma_mark_all_frame(half, starts(r.plan, r.statuses), "running"@, now);
    assert(half.nodes[i].id == r.nodes[i].id);
    assert(pumped(r, now).nodes[i].id == half.nodes[i].id);
}

/// A run ends exactly when it has not ended and no node of it waits or runs any more: it has ended
/// now, its nodes stay as they are, and a run being cancelled never ends as done.
pub proof fn law_runs_end_with_their_nodes(r: RunView, now: Text)
    ensures
        settles(r) <==> r.ended is None && forall|i: int|
            0 <= i < r.nodes.len() ==> (#[trigger] r.nodes[i]).status != "pending"@ && r.nodes[i].status != "running"@,
        same_run(settled(r, now), r),
        settled(r, now).nodes == r.nodes,
        settled(r, now).canceling == r.canceling,
        settles(r) ==> settled(r, now).ended == Some(now),
        settles(r) && !r.canceling ==> settled(r, now).status == derived_status(r.statuses),
        settles(r) && derived_status(r.statuses) != "done"@ ==> settled(r, now).status == derived_status(r.statuses),
        !settles(r) ==> settled(r, now) == r,
{
}

// ---- cancelling ----

/// The processes to end are those of the nodes that have one, each under its node's id, and no
/// others.
pub proof fn law_live_processes_are_listed(nodes: Seq<NodeView>, id: Text, pid: i32)
    ensures
        live_nodes(nodes).contains((id, pid)) <==> exists|i: int| 0 <= i < nodes.len() && (#[trigger] nodes[i]).id == id && nodes[i].pid == Some(pid),
    decreases nodes.len(),
{
    if nodes.len() > 0 {
        let rest = nodes.drop_last();
        law_live_processes_are_listed(rest, id, pid);
        let before = live_nodes(rest);
        let all = live_nodes(nodes);
        if before.contains((id, pid)) {
            let k = choose|k: int| 0 <= k < before.len() && before[k] == (id, pid);
            assert(all[k] == (id, pid));
            let i = choose|i: int| 0 <= i < rest.len() && (#[trigger] rest[i]).id == id && rest[i].pid == Some(pid);
            assert(nodes[i].id == id);
        }
        if all.contains((id, pid)) && !before.contains((id, pid)) {
            let k = choose|k: int| 0 <= k < all.len() && all[k] == (id, pid);
            assert(k == before.len());
            assert(nodes[nodes.len() - 1].id == id);
        }
        if exists|i: int| 0 <= i < nodes.len() && (#[trigger] nodes[i]).id == id && nodes[i].pid == Some(pid) {
            let i = choose|i: int| 0 <= i < nodes.len() && (#[trigger] nodes[i]).id == id && nodes[i].pid == Some(pid);
            if i < rest.len() {
                assert(rest[i].id == id);
            } else {
                assert(all[before.len() as int] == (id, pid));
            }
        }
    }
}

/// Going down, every process of every run is killed: none that runs is left out.
pub proof fn law_every_process_is_killed(runs: Seq<RunView>, k: int, i: int)
    requires
        0 <= k < runs.len(),
        0 <= i < runs[k].nodes.len(),
        runs[k].nodes[i].pid is Some,
    ensures
        all_live(runs).contains((runs[k].nodes[i].id, runs[k].nodes[i].pid->0)),
    decreases runs.len(),
{
    let rest = runs.drop_last();
    let x = (runs[k].nodes[i].id, runs[k].nodes[i].pid->0);
    let last = live_nodes(runs.last().nodes);
    if k < rest.len() {
        law_every_process_is_killed(rest, k, i);
        let j = choose|j: int| 0 <= j < all_live(rest).len() && all_live(rest)[j] == x;
        assert(all_live(runs)[j] == x);
    } else {
        law_live_processes_are_listed(runs.last().nodes, x.0, x.1);
        let j = choose|j: int| 0 <= j < last.len() && last[j] == x;
        assert(all_live(runs)[all_live(rest).len() + j] == x);
    }
}

proof fn lemma_waits(nodes: Seq<NodeView>, id: Text)
    ensures
        waiting_ids(nodes).contains(id) <==> exists|i: int| 0 <= i < nodes.len() && (#[trigger] nodes[i]).id == id && nodes[i].status == "pending"@,
    decreases nodes.len(),
{
    if nodes.len() > 0 {
        let rest = nodes.drop_last();
        lemma_waits(rest, id);
        let before = waiting_ids(rest);
        let all = waiting_ids(nodes);
        if before.contains(id) {
            let k = choose|k: int| 0 <= k < before.len() && before[k] == id;
            assert(all[k] == id);
            let i = choose|i: int| 0 <= i < rest.len() && (#[trigger] rest[i]).id == id && rest[i].status == "pending"@;
            assert(nodes[i].id == id);
        }
        if all.contains(id) && !before.contains(id) {
            let k = choose|k: int| 0 <= k < all.len() && all[k] == id;
            assert(k == before.len());
            assert(nodes[nodes.len() - 1].id == id);
        }
        if exists|i: int| 0 <= i < nodes.len() && (#[trigger] nodes[i]).id == id && nodes[i].status == "pending"@ {
            let i = choose|i: int| 0 <= i < nodes.len() && (#[trigger] nodes[i]).id == id && nodes[i].status == "pending"@;
            if i < rest.len() {
                assert(rest[i].id == id);
            } else {
                assert(all[before.len() as int] == id);
            }
        }
    }
}

/// A cancel skips what waits and leaves what runs to its exit: each waiting node is skipped, every
/// other keeps its status, what has a process has a timer behind it, the run is being cancelled,
/// and it is the same run.
pub proof fn law_cancelling_skips_what_waits(r: RunView, now: Text, i: int)
    requires
        consistent(r),
        cancellable(r),
        0 <= i < r.nodes.len(),
    ensures
        cancellable(r) <==> r.ended is None && !r.canceling,
        same_run(canceled(r, now), r),
        canceled(r, now).canceling,
        canceled(r, now).nodes[i].id == r.nodes[i].id,
        r.nodes[i].status == "pending"@ ==> canceled(r, now).nodes[i].status == "skipped"@,
        r.nodes[i].status != "pending"@ ==> canceled(r, now).nodes[i].status == r.nodes[i].status,
        canceled(r, now).nodes[i].pid is Some ==> canceled(r, now).nodes[i].kill_timer,
{
    let begun = RunView { canceling: true, ..r };
    assert(consistent(begun)) by {
        assert(begun.nodes == r.nodes && begun.statuses == r.statuses && begun.plan == r.plan);
    }
    lemma_mark_all(begun, waiting_ids(r.nodes), "skipped"@, now);
    lemma_mark_all_frame(begun, waiting_ids(r.nodes), "skipped"@, now);
    let marked = mark_all(begun, waiting_ids(r.nodes), "skipped"@, now);
    lemma_waits(r.nodes, r.nodes[i].id);
    assert(marked.nodes[i].id == r.nodes[i].id);
    if waiting_ids(r.nodes).contains(r.nodes[i].id) {
        let j = choose|j: int| 0 <= j < r.nodes.len() && (#[trigger] r.nodes[j]).id == r.nodes[i].id && r.nodes[j].status == "pending"@;
        if j < i {
            assert(r.nodes[j].id != r.nodes[i].id);
        }
        if i < j {
            assert(r.nodes[i].id != r.nodes[j].id);
        }
    }
    assert(armed(marked).nodes[i].id == r.nodes[i].id);
}

/// Whom a cancel ends are the nodes that had a process, each by its own.
pub proof fn law_cancelling_ends_what_runs(c: Cancellation, r: RunView, now: Text, i: int)
    requires
        takes_down(c, r, now),
        0 <= i < r.nodes.len(),
        r.nodes[i].pid is Some,
    ensures
        exists|k: int| 0 <= k < c.terminate@.len() && (#[trigger] c.terminate@[k]).0@ == r.nodes[i].id && Some(c.terminate@[k].1) == r.nodes[i].pid,
{
    let x = (r.nodes[i].id, r.nodes[i].pid->0);
    law_live_processes_are_listed(r.nodes, x.0, x.1);
    let listed = crate::flow::runner::pid_views(c.terminate@);
    let k = choose|k: int| 0 <= k < listed.len() && listed[k] == x;
    assert((c.terminate@[k].0@, c.terminate@[k].1) == x);
}

// ---- a fresh run ----

/// A fresh node is the document's own: its name, its kind, its model and its command line are those
/// of the node of that id, it waits, and nothing has happened to it.
pub proof fn law_fresh_nodes_are_the_documents_own(d: FlowDoc, dir: Text, k: int, i: nat)
    requires
        0 <= k < d.nodes@.len(),
        forall|a: int, b: int| 0 <= a < b < d.nodes@.len() ==> (#[trigger] d.nodes@[a]).id@ != (#[trigger] d.nodes@[b]).id@,
    ensures
        ({
            let n = fresh_node(d, dir, d.nodes@[k].id@, i);
            &&& n.id == d.nodes@[k].id@
            &&& n.name == d.nodes@[k].name@
            &&& n.kind == d.nodes@[k].kind@
            &&& n.model == opt_text(d.nodes@[k].model)
            &&& d.nodes@[k].argv matches Some(argv) ==> n.inner_argv == texts(argv@)
            &&& n.status == "pending"@
            &&& n.started is None && n.ended is None && n.exit is None && n.pid is None && !n.kill_timer
        }),
{
    let id = d.nodes@[k].id@;
    let j = crate::flow::start::doc_index(d, id);
    assert(0 <= j < d.nodes@.len() && d.nodes@[j].id@ == id);
    if j < k {
        assert(d.nodes@[j].id@ != d.nodes@[k].id@);
    }
    if k < j {
        assert(d.nodes@[k].id@ != d.nodes@[j].id@);
    }
}

// ---- the command line ----

/// A sandbox in front of a command line hands it the whole command line, unchanged, behind its own
/// arguments; without a sandbox the command line is what runs.
pub proof fn law_sandboxes_hold_the_command(inner: Seq<Text>, cmd: String, args: Vec<String>)
    ensures
        wrapped(inner, None) == inner,
        ({
            let all = wrapped(inner, Some(SandboxWrap::Prefix { cmd, args }));
            &&& all.len() == 1 + args@.len() + inner.len()
            &&& all[0] == cmd@
            &&& forall|k: int| 0 <= k < args@.len() ==> #[trigger] all[1 + k] == args@[k]@
            &&& all.skip((1 + args@.len()) as int) == inner
        }),
{
    let all = wrapped(inner, Some(SandboxWrap::Prefix { cmd, args }));
    assert(texts(args@).len() == args@.len());
    assert forall|k: int| 0 <= k < args@.len() implies #[trigger] all[1 + k] == args@[k]@ by {
        assert(texts(args@)[k] == args@[k]@);
    }
    assert(all.skip((1 + args@.len()) as int) =~= inner);
}

// ---- what is told ----

/// An event of a node names the run, its flow, the node, the agent that it runs and the status that
/// it reached.
pub proof fn law_events_name_run_and_node(r: RunView, i: int, status: Text, exit: Option<i32>)
    requires
        consistent(r),
        0 <= i < r.nodes.len(),
    ensures
        node_event(r, r.nodes[i].id, status, exit) == (EventView::NodeChanged {
            run: r.id,
            flow: r.flow,
            node: r.nodes[i].id,
            agent: r.nodes[i].kind,
            status,
            exit,
        }),
{
    lemma_at(r, i);
}

// ---- what starts and what is written off ----

proof fn lemma_of_plan(plan: RunPlan, ids: Seq<Text>, edges: Seq<(Text, Text)>, id: Text)
    requires
        distinct(ids),
        !cyclic(ids, edges),
        is_plan(plan, ids, edges),
        ids.contains(id),
    ensures
        nodes_of(plan).contains(id),
{
    law_every_node_placed_once(ids, edges);
    assert(nodes_of(plan).to_set().contains(id));
}

/// A node whose turn has come starts: it waits, all that lead to it are done, and there is room.
pub proof fn law_nodes_start_when_their_turn_comes(plan: RunPlan, ids: Seq<Text>, edges: Seq<(Text, Text)>, state: Map<Text, Text>, id: Text)
    requires
        distinct(ids),
        !cyclic(ids, edges),
        is_plan(plan, ids, edges),
        ids.contains(id),
        state.contains_key(id) && state[id] == "pending"@,
        forall|f: Text| ids.contains(f) && #[trigger] edges.contains((f, id)) ==> state.contains_key(f) && state[f] == "done"@,
    ensures
        !skips(plan, state).contains(id),
        starts(plan, state).len() < room(plan, state) ==> starts(plan, state).contains(id),
        starts(plan, state).len() == 0 ==> room(plan, state) == 0,
{
    lemma_words();
    lemma_of_plan(plan, ids, edges, id);
    law_skips_are_the_downstream_cone(plan, ids, edges, state, id);
    let ps = parents_in(plan, id);
    assert forall|i: int| 0 <= i < ps.len() implies status_of(state, #[trigger] ps[i]) == "done"@ by {
        law_plans_know_the_parents(plan, ids, edges, id, ps[i]);
        assert(ps.contains(ps[i]));
        assert(edges.contains((ps[i], id)));
    }
    assert(!doomed(plan, state, skips(plan, state), id)) by {
        assert forall|i: int| 0 <= i < ps.len() implies !skips(plan, state).contains(#[trigger] ps[i]) && !blocking(status_of(state, ps[i])) by {
            assert(status_of(state, ps[i]) == "done"@);
            if skips(plan, state).contains(ps[i]) {
                law_only_pending_is_skipped(plan, state, ps[i]);
            }
        }
    }
    let p = |x: Text| eligible(plan, state, x);
    let k = choose|k: int| 0 <= k < nodes_of(plan).len() && nodes_of(plan)[k] == id;
    assert(eligible(plan, state, id));
    nodes_of(plan).lemma_filter_contains(p, k);
    assert(startable(plan, state).contains(id));
}

/// A failure is passed on: a node that waits is written off as soon as one that leads to it has
/// failed, was cancelled or was skipped itself.
pub proof fn law_failures_are_passed_on(plan: RunPlan, ids: Seq<Text>, edges: Seq<(Text, Text)>, state: Map<Text, Text>, f: Text, id: Text)
    requires
        distinct(ids),
        !cyclic(ids, edges),
        is_plan(plan, ids, edges),
        ids.contains(f) && ids.contains(id),
        edges.contains((f, id)),
        state.contains_key(id) && state[id] == "pending"@,
        state.contains_key(f),
        state[f] == "failed"@ || state[f] == "canceled"@ || state[f] == "skipped"@ || skips(plan, state).contains(f),
    ensures
        skips(plan, state).contains(id),
        !starts(plan, state).contains(id),
{
    law_skips_are_the_downstream_cone(plan, ids, edges, state, id);
    law_plans_know_the_parents(plan, ids, edges, id, f);
    let ps = parents_in(plan, id);
    let i = choose|i: int| 0 <= i < ps.len() && ps[i] == f;
    assert(blocking(status_of(state, ps[i])) || skips(plan, state).contains(ps[i]));
    if starts(plan, state).contains(id) {
        law_starts_are_fresh(plan, state, id);
    }
}

/// Success writes nothing off: a node is written off only where one that leads to it did not come to
/// a good end.
pub proof fn law_success_writes_nothing_off(plan: RunPlan, ids: Seq<Text>, edges: Seq<(Text, Text)>, state: Map<Text, Text>, id: Text)
    requires
        distinct(ids),
        !cyclic(ids, edges),
        is_plan(plan, ids, edges),
        ids.contains(id),
        skips(plan, state).contains(id),
    ensures
        exists|f: Text|
            ids.contains(f) && #[trigger] edges.contains((f, id)) && (skips(plan, state).contains(f) || status_of(state, f) == "failed"@ || status_of(
                state,
                f,
            ) == "canceled"@ || status_of(state, f) == "skipped"@),
{
    law_skips_are_the_downstream_cone(plan, ids, edges, state, id);
    let ps = parents_in(plan, id);
    let i = choose|i: int| 0 <= i < ps.len() && (skips(plan, state).contains(#[trigger] ps[i]) || blocking(status_of(state, ps[i])));
    law_plans_know_the_parents(plan, ids, edges, id, ps[i]);
    assert(ps.contains(ps[i]));
    assert(edges.contains((ps[i], id)));
}

/// Two nodes run at once: there is room for two while none runs, and for one beside one.
pub proof fn law_two_nodes_run_at_once(plan: RunPlan, state: Map<Text, Text>)
    ensures
        running_nodes(plan, state) <= 2 ==> room(plan, state) == 2 - running_nodes(plan, state),
        running_nodes(plan, state) > 2 ==> room(plan, state) == 0,
{
}

// ---- what is told of a step ----

/// Every change of a node is told, in the order in which it is made: the node by its id, the status
/// that it reached, and the run as it stands then.
pub proof fn law_every_change_is_told(r: RunView, ids: Seq<Text>, status: Text, now: Text, k: int)
    requires
        consistent(r),
        forall|i: int| 0 <= i < ids.len() ==> has_node(r.nodes, #[trigger] ids[i]),
        0 <= k < ids.len(),
    ensures
        marks_told(r, ids, status, now).len() == ids.len(),
        marks_told(r, ids, status, now)[k].0 matches EventView::NodeChanged { run, flow, node, status: reached, .. } && run == r.id && flow == r.flow
            && node == ids[k] && reached == status,
        marks_told(r, ids, status, now)[k].1.id == r.id,
        marks_told(r, ids, status, now)[k].1.flow_path == r.flow_path,
    decreases ids.len(),
{
    let front = ids.drop_last();
    let before = mark_all(r, front, status, now);
    assert forall|i: int| 0 <= i < front.len() implies has_node(r.nodes, #[trigger] front[i]) by {
        assert(front[i] == ids[i]);
    }
    lemma_mark_all_frame(r, front, status, now);
    lemma_mark_all(r, front, status, now);
    lemma_mark_all_frame(r, ids, status, now);
    assert(has_node(before.nodes, ids.last())) by {
        assert(has_node(r.nodes, ids[ids.len() - 1]));
        let i = choose|i: int| 0 <= i < r.nodes.len() && (#[trigger] r.nodes[i]).id == ids.last();
        assert(before.nodes[i].id == ids.last());
    }
    if front.len() > 0 {
        law_every_change_is_told(r, front, status, now, if k < front.len() { k } else { 0 });
    }
    assert(marks_told(r, ids, status, now).len() == ids.len()) by {
        if front.len() == 0 {
            assert(marks_told(r, front, status, now).len() == 0);
        }
    }
    if k < front.len() {
        assert(marks_told(r, ids, status, now)[k] == marks_told(r, front, status, now)[k]);
        assert(front[k] == ids[k]);
    }
}

/// A run keeps what it writes in a folder of its own inside its root, under its flow's name and its
/// own id, so that no two runs of a flow share one.
pub proof fn law_runs_write_under_their_root(root: Text, flow: Text, id: Text, other: Text)
    requires
        root.len() > 0,
        plain_name(flow),
        plain_name(id),
        plain_name(other),
    ensures
        path_parts(run_dir_text(root, flow, id)) == path_parts(root) + seq![
            Part::Name(".tome"@),
            Part::Name("flows"@),
            Part::Name(flow),
            Part::Name("runs"@),
            Part::Name(id),
        ],
        inside(root, run_dir_text(root, flow, id)),
        id != other ==> run_dir_text(root, flow, id) != run_dir_text(root, flow, other),
{
    lemma_run_dir(root, flow, id);
    lemma_run_dir(root, flow, other);
    let all = path_parts(run_dir_text(root, flow, id));
    assert(all.take(path_parts(root).len() as int) =~= path_parts(root));
    if id != other {
        assert(all.last() == Part::Name(id));
        assert(path_parts(run_dir_text(root, flow, other)).last() == Part::Name(other));
    }
}

proof fn lemma_run_dir(root: Text, flow: Text, id: Text)
    requires
        plain_name(flow),
        plain_name(id),
    ensures
        path_parts(run_dir_text(root, flow, id)) == path_parts(root) + seq![
            Part::Name(".tome"@),
            Part::Name("flows"@),
            Part::Name(flow),
            Part::Name("runs"@),
            Part::Name(id),
        ],
{
    reveal_strlit(".tome");
    reveal_strlit("flows");
    reveal_strlit("runs");
    assert(plain_name(".tome"@)) by {
        assert(".tome"@.len() == 5);
    }
    assert(plain_name("flows"@)) by {
        assert("flows"@.len() == 5);
    }
    assert(plain_name("runs"@)) by {
        assert("runs"@.len() == 4);
    }
    let a = path_join(root, ".tome"@);
    let b = path_join(a, "flows"@);
    let c = path_join(b, flow);
    let d = path_join(c, "runs"@);
    law_joined_names_are_inside(root, ".tome"@);
    law_joined_names_are_inside(a, "flows"@);
    law_joined_names_are_inside(b, flow);
    law_joined_names_are_inside(c, "runs"@);
    law_joined_names_are_inside(d, id);
    assert(path_parts(run_dir_text(root, flow, id)) =~= path_parts(root) + seq![
        Part::Name(".tome"@),
        Part::Name("flows"@),
        Part::Name(flow),
        Part::Name("runs"@),
        Part::Name(id),
    ]);
}

}

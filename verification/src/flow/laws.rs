//! What holds of every run, whatever its nodes do.

use vstd::multiset::Multiset;
use vstd::prelude::*;
use vstd::seq_lib::*;
use vstd::string::*;

use crate::flow::graph::{rows, Text};
use crate::flow::launch::{after_exit, exit_status, node_of, with_process};
use crate::flow::run_plan::{eligible, law_cap_is_kept_and_used, law_done_means_nothing_failed, law_starts_are_fresh, lemma_status_words, nodes_of, running_nodes, skips, starts, status_of, CONCURRENCY_CAP};
use crate::flow::runner::{armed, cancellable, canceled, going_down, launches, mark_all, newest_first, node_shot, placed_by_start, pumped, run_shots, settled, settles, shot_of, shots, waiting_ids, RunShot, RunSnapshot};
use crate::flow::state::{consistent, has_node, is_at, lemma_position, mark, mark_node, position, NodeView, RunState, RunView};
use crate::text::{lemma_lex_total, lemma_lex_transitive, lex_less, opt_text, texts};

verus! {

proof fn lemma_find(r: RunView, i: int)
    requires
        consistent(r),
        0 <= i < r.nodes.len(),
    ensures
        has_node(r.nodes, r.nodes[i].id),
        position(r.nodes, r.nodes[i].id) == i,
{
    let id = r.nodes[i].id;
    assert(is_at(r.nodes, id, i)) by {
        assert forall|j: int| 0 <= j < i implies (#[trigger] r.nodes[j]).id != id by {
            assert(r.nodes[j].id != r.nodes[i].id);
        }
    }
    lemma_position(r.nodes, id, i);
}

/// Marking a node keeps the status table and the nodes in agreement.
pub proof fn law_marking_keeps_consistency(r: RunView, id: Text, status: Text, exit: Option<i32>, now: Text)
    requires
        consistent(r),
    ensures
        consistent(mark(r, id, status, exit, now)),
        mark(r, id, status, exit, now).nodes.len() == r.nodes.len(),
        forall|i: int|
            0 <= i < r.nodes.len() ==> (#[trigger] mark(r, id, status, exit, now).nodes[i]) == if r.nodes[i].id == id {
                mark_node(r.nodes[i], status, exit, now)
            } else {
                r.nodes[i]
            },
{
    let m = mark(r, id, status, exit, now);
    if has_node(r.nodes, id) {
        let w = choose|i: int| 0 <= i < r.nodes.len() && (#[trigger] r.nodes[i]).id == id;
        lemma_find(r, w);
        let p = position(r.nodes, id);
        assert forall|i: int| 0 <= i < r.nodes.len() implies (#[trigger] m.nodes[i]) == (if r.nodes[i].id == id {
            mark_node(r.nodes[i], status, exit, now)
        } else {
            r.nodes[i]
        }) by {
            if r.nodes[i].id == id {
                lemma_find(r, i);
            }
        }
        assert forall|i: int, j: int| 0 <= i < j < m.nodes.len() implies (#[trigger] m.nodes[i]).id != (#[trigger] m.nodes[j]).id by {
            assert(r.nodes[i].id != r.nodes[j].id);
        }
        assert forall|i: int| 0 <= i < m.nodes.len() implies m.statuses.contains_key((#[trigger] m.nodes[i]).id)
            && m.statuses[m.nodes[i].id] == m.nodes[i].status by {
            assert(r.statuses.contains_key(r.nodes[i].id));
        }
        assert forall|x: Text| m.statuses.contains_key(x) implies #[trigger] has_node(m.nodes, x) by {
            if x != id {
                assert(has_node(r.nodes, x));
            }
            let k = choose|k: int| 0 <= k < r.nodes.len() && (#[trigger] r.nodes[k]).id == x;
            assert(m.nodes[k].id == x);
        }
        assert(Seq::new(m.nodes.len(), |i: int| m.nodes[i].id) =~= Seq::new(r.nodes.len(), |i: int| r.nodes[i].id));
        assert forall|i: int| 0 <= i < m.nodes.len() && (#[trigger] m.nodes[i]).started is None implies m.nodes[i].ended is None by {
            assert(r.nodes[i].started is None ==> r.nodes[i].ended is None);
        }
    } else {
        assert forall|i: int| 0 <= i < r.nodes.len() implies (#[trigger] m.nodes[i]) == (if r.nodes[i].id == id {
            mark_node(r.nodes[i], status, exit, now)
        } else {
            r.nodes[i]
        }) by {
            assert(r.nodes[i].id != id);
        }
    }
}

/// Marking a list of nodes without an exit code: those of the list have the status, the others
/// are as they were.
pub proof fn lemma_mark_all(r: RunView, ids: Seq<Text>, status: Text, now: Text)
    requires
        consistent(r),
    ensures
        consistent(mark_all(r, ids, status, now)),
        mark_all(r, ids, status, now).nodes.len() == r.nodes.len(),
        mark_all(r, ids, status, now).plan == r.plan,
        mark_all(r, ids, status, now).canceling == r.canceling,
        mark_all(r, ids, status, now).ended == r.ended,
        forall|i: int|
            0 <= i < r.nodes.len() ==> (#[trigger] mark_all(r, ids, status, now).nodes[i]).id == r.nodes[i].id && mark_all(
                r,
                ids,
                status,
                now,
            ).nodes[i].status == if ids.contains(r.nodes[i].id) { status } else { r.nodes[i].status },
    decreases ids.len(),
{
    let m = mark_all(r, ids, status, now);
    if ids.len() == 0 {
        assert forall|i: int| 0 <= i < r.nodes.len() implies !ids.contains((#[trigger] r.nodes[i]).id) by {}
    } else {
        let rest = ids.drop_last();
        let b = mark_all(r, rest, status, now);
        lemma_mark_all(r, rest, status, now);
        law_marking_keeps_consistency(b, ids.last(), status, None, now);
        assert forall|i: int| 0 <= i < r.nodes.len() implies (#[trigger] m.nodes[i]).id == r.nodes[i].id && m.nodes[i].status == (if ids.contains(r.nodes[i].id) {
            status
        } else {
            r.nodes[i].status
        }) by {
            assert(b.nodes[i].id == r.nodes[i].id);
            if ids.contains(r.nodes[i].id) && r.nodes[i].id != ids.last() {
                let k = choose|k: int| 0 <= k < ids.len() && ids[k] == r.nodes[i].id;
                assert(rest[k] == r.nodes[i].id);
            }
            if rest.contains(r.nodes[i].id) {
                let k = choose|k: int| 0 <= k < rest.len() && rest[k] == r.nodes[i].id;
                assert(ids[k] == r.nodes[i].id);
            }
            assert(ids.contains(ids.last()));
        }
    }
}

/// A scheduling step keeps a run consistent.
pub proof fn law_scheduling_keeps_consistency(r: RunView, now: Text)
    requires
        consistent(r),
    ensures
        consistent(pumped(r, now)),
{
    if r.ended is None {
        lemma_mark_all(r, skips(r.plan, r.statuses), "skipped"@, now);
        lemma_mark_all(mark_all(r, skips(r.plan, r.statuses), "skipped"@, now), starts(r.plan, r.statuses), "running"@, now);
    }
}

/// So do settling, cancelling and the exit of a process.
pub proof fn law_ending_keeps_consistency(r: RunView, id: Text, code: Option<i32>, now: Text)
    requires
        consistent(r),
    ensures
        consistent(settled(r, now)),
        consistent(canceled(r, now)),
        consistent(after_exit(r, id, code, now)),
{
    lemma_same_nodes(r, settled(r, now));
    let begun = RunView { canceling: true, ..r };
    lemma_same_nodes(r, begun);
    lemma_mark_all(begun, waiting_ids(r.nodes), "skipped"@, now);
    let marked = mark_all(begun, waiting_ids(r.nodes), "skipped"@, now);
    lemma_same_nodes(marked, armed(marked));
    lemma_same_nodes(going_down(r, now), settled(going_down(r, now), now));
    let quiet = with_process(r, id, None, false);
    if has_node(r.nodes, id) {
        let w = choose|i: int| 0 <= i < r.nodes.len() && (#[trigger] r.nodes[i]).id == id;
        lemma_find(r, w);
    }
    lemma_same_nodes(r, quiet);
    law_marking_keeps_consistency(quiet, id, exit_status(r.canceling, code), code, now);
}

/// So does a process that comes up.
pub proof fn law_spawning_keeps_consistency(r: RunView, id: Text, pid: i32)
    requires
        consistent(r),
    ensures
        consistent(with_process(r, id, Some(pid), node_of(r, id).kill_timer)),
{
    if has_node(r.nodes, id) {
        let w = choose|i: int| 0 <= i < r.nodes.len() && (#[trigger] r.nodes[i]).id == id;
        lemma_find(r, w);
    }
    lemma_same_nodes(r, with_process(r, id, Some(pid), node_of(r, id).kill_timer));
}

/// Consistency looks at the ids, the statuses and the times of the nodes only.
proof fn lemma_same_nodes(r: RunView, q: RunView)
    requires
        consistent(r),
        q.plan == r.plan,
        q.statuses == r.statuses,
        q.nodes.len() == r.nodes.len(),
        forall|i: int|
            0 <= i < r.nodes.len() ==> (#[trigger] q.nodes[i]).id == r.nodes[i].id && q.nodes[i].status == r.nodes[i].status
                && q.nodes[i].started == r.nodes[i].started && q.nodes[i].ended == r.nodes[i].ended,
    ensures
        consistent(q),
{
    assert forall|i: int, j: int| 0 <= i < j < q.nodes.len() implies (#[trigger] q.nodes[i]).id != (#[trigger] q.nodes[j]).id by {
        assert(r.nodes[i].id != r.nodes[j].id);
    }
    assert forall|i: int| 0 <= i < q.nodes.len() implies q.statuses.contains_key((#[trigger] q.nodes[i]).id)
        && q.statuses[q.nodes[i].id] == q.nodes[i].status by {
        assert(r.statuses.contains_key(r.nodes[i].id));
    }
    assert forall|x: Text| q.statuses.contains_key(x) implies #[trigger] has_node(q.nodes, x) by {
        assert(has_node(r.nodes, x));
        let k = choose|k: int| 0 <= k < r.nodes.len() && (#[trigger] r.nodes[k]).id == x;
        assert(q.nodes[k].id == x);
    }
    assert(Seq::new(q.nodes.len(), |i: int| q.nodes[i].id) =~= Seq::new(r.nodes.len(), |i: int| r.nodes[i].id));
    assert forall|i: int| 0 <= i < q.nodes.len() && (#[trigger] q.nodes[i]).started is None implies q.nodes[i].ended is None by {
        assert(r.nodes[i].started is None ==> r.nodes[i].ended is None);
    }
}

/// A node whose process exited has none to kill any more, and no timer behind it: a timer that
/// fires late finds nobody.
pub proof fn law_exited_nodes_are_never_killed(r: RunView, id: Text, code: Option<i32>, now: Text)
    requires
        consistent(r),
        has_node(r.nodes, id),
    ensures
        has_node(after_exit(r, id, code, now).nodes, id),
        node_of(after_exit(r, id, code, now), id).pid is None,
        !node_of(after_exit(r, id, code, now), id).kill_timer,
{
    let w = choose|i: int| 0 <= i < r.nodes.len() && (#[trigger] r.nodes[i]).id == id;
    lemma_find(r, w);
    let quiet = with_process(r, id, None, false);
    lemma_same_nodes(r, quiet);
    lemma_find(quiet, w);
    law_ending_keeps_consistency(r, id, code, now);
    law_marking_keeps_consistency(quiet, id, exit_status(r.canceling, code), code, now);
    assert(after_exit(r, id, code, now).nodes[w].id == id);
    lemma_find(after_exit(r, id, code, now), w);
}

// ---- nothing starts twice, nothing starts late ----

/// No node is waiting any more.
pub open spec fn drained(nodes: Seq<NodeView>) -> bool {
    forall|i: int| 0 <= i < nodes.len() ==> (#[trigger] nodes[i]).status != "pending"@
}

proof fn lemma_status_in(r: RunView, id: Text)
    requires
        consistent(r),
        nodes_of(r.plan).contains(id),
    ensures
        has_node(r.nodes, id),
        status_of(r.statuses, id) == node_of(r, id).status,
{
    let order = texts(r.plan.order@);
    let k = choose|k: int| 0 <= k < order.len() && order[k] == id;
    assert(r.nodes[k].id == id);
    lemma_find(r, k);
    assert(r.statuses.contains_key(r.nodes[k].id));
}

proof fn lemma_start_in_plan(r: RunView, id: Text)
    requires
        starts(r.plan, r.statuses).contains(id),
    ensures
        nodes_of(r.plan).contains(id),
{
    let p = |x: Text| eligible(r.plan, r.statuses, x);
    let all = nodes_of(r.plan).filter(p);
    let j = choose|j: int| 0 <= j < starts(r.plan, r.statuses).len() && starts(r.plan, r.statuses)[j] == id;
    assert(all[j] == id);
    assert(all.contains(id));
    nodes_of(r.plan).lemma_filter_contains_rev(p, id);
}

/// A run without waiting nodes launches nothing.
pub proof fn law_drained_runs_launch_nothing(r: RunView)
    requires
        consistent(r),
        drained(r.nodes),
    ensures
        launches(r).len() == 0,
{
    if r.ended is None && starts(r.plan, r.statuses).len() > 0 {
        let id = starts(r.plan, r.statuses)[0];
        assert(starts(r.plan, r.statuses).contains(id));
        law_starts_are_fresh(r.plan, r.statuses, id);
        lemma_start_in_plan(r, id);
        lemma_status_in(r, id);
        let w = choose|i: int| 0 <= i < r.nodes.len() && (#[trigger] r.nodes[i]).id == id;
        lemma_find(r, w);
        assert(r.nodes[w].status != "pending"@);
    }
}

/// After a cancel nothing new starts: the run launches nothing, and no later transition of a
/// node brings one back to waiting.
pub proof fn law_cancelled_runs_launch_nothing(r: RunView, now: Text)
    requires
        consistent(r),
        cancellable(r),
    ensures
        drained(canceled(r, now).nodes),
        launches(canceled(r, now)).len() == 0,
{
    let begun = RunView { canceling: true, ..r };
    lemma_same_nodes(r, begun);
    let ids = waiting_ids(r.nodes);
    lemma_mark_all(begun, ids, "skipped"@, now);
    lemma_status_words();
    let marked = mark_all(begun, ids, "skipped"@, now);
    assert forall|i: int| 0 <= i < marked.nodes.len() implies (#[trigger] marked.nodes[i]).status != "pending"@ by {
        lemma_waiting(r.nodes, i);
        assert(begun.nodes[i].id == r.nodes[i].id);
    }
    let down = going_down(r, now);
    assert forall|i: int| 0 <= i < down.nodes.len() implies (#[trigger] down.nodes[i]).status != "pending"@ by {
        assert(marked.nodes[i].status != "pending"@);
    }
    law_ending_keeps_consistency(r, Seq::empty(), None, now);
    law_drained_runs_launch_nothing(canceled(r, now));
}

proof fn lemma_waiting(nodes: Seq<NodeView>, i: int)
    requires
        0 <= i < nodes.len(),
    ensures
        nodes[i].status == "pending"@ ==> waiting_ids(nodes).contains(nodes[i].id),
    decreases nodes.len(),
{
    let rest = nodes.drop_last();
    let before = waiting_ids(rest);
    let all = waiting_ids(nodes);
    if i < rest.len() {
        lemma_waiting(rest, i);
        if nodes[i].status == "pending"@ {
            let k = choose|k: int| 0 <= k < before.len() && before[k] == nodes[i].id;
            assert(all[k] == nodes[i].id);
        }
    } else if nodes[i].status == "pending"@ {
        assert(all[before.len() as int] == nodes[i].id);
    }
}

/// No transition of a node brings one back to waiting: a run without waiting nodes stays without.
pub proof fn law_drained_runs_stay_drained(r: RunView, id: Text, status: Text, exit: Option<i32>, now: Text)
    requires
        consistent(r),
        drained(r.nodes),
        status != "pending"@,
    ensures
        drained(mark(r, id, status, exit, now).nodes),
{
    law_marking_keeps_consistency(r, id, status, exit, now);
    let m = mark(r, id, status, exit, now);
    assert forall|i: int| 0 <= i < m.nodes.len() implies (#[trigger] m.nodes[i]).status != "pending"@ by {
        assert(r.nodes[i].status != "pending"@);
    }
}

proof fn lemma_after_pump(r: RunView, now: Text, i: int)
    requires
        consistent(r),
        r.ended is None,
        0 <= i < r.nodes.len(),
    ensures
        pumped(r, now).nodes.len() == r.nodes.len(),
        pumped(r, now).plan == r.plan,
        pumped(r, now).nodes[i].id == r.nodes[i].id,
        pumped(r, now).nodes[i].status == if starts(r.plan, r.statuses).contains(r.nodes[i].id) {
            "running"@
        } else if skips(r.plan, r.statuses).contains(r.nodes[i].id) {
            "skipped"@
        } else {
            r.nodes[i].status
        },
{
    let half = mark_all(r, skips(r.plan, r.statuses), "skipped"@, now);
    lemma_mark_all(r, skips(r.plan, r.statuses), "skipped"@, now);
    lemma_mark_all(half, starts(r.plan, r.statuses), "running"@, now);
    assert(half.nodes[i].id == r.nodes[i].id);
    assert(pumped(r, now).nodes[i].id == half.nodes[i].id);
}

/// Two scheduling steps one after the other never launch the same node: a node with two parents
/// that finish together is launched once.
pub proof fn law_no_node_is_launched_twice(r: RunView, now: Text, id: Text)
    requires
        consistent(r),
        launches(r).contains(id),
    ensures
        !launches(pumped(r, now)).contains(id),
{
    lemma_status_words();
    lemma_start_in_plan(r, id);
    lemma_status_in(r, id);
    let w = choose|i: int| 0 <= i < r.nodes.len() && (#[trigger] r.nodes[i]).id == id;
    lemma_find(r, w);
    lemma_after_pump(r, now, w);
    law_scheduling_keeps_consistency(r, now);
    let q = pumped(r, now);
    if launches(q).contains(id) {
        law_starts_are_fresh(q.plan, q.statuses, id);
        lemma_start_in_plan(q, id);
        lemma_status_in(q, id);
        lemma_find(q, w);
        assert(false);
    }
}

proof fn lemma_count_either(ids: Seq<Text>, p: spec_fn(Text) -> bool, q: spec_fn(Text) -> bool, s: spec_fn(Text) -> bool)
    requires
        forall|i: int| 0 <= i < ids.len() && s(#[trigger] ids[i]) ==> p(ids[i]) || q(ids[i]),
    ensures
        ids.filter(s).len() <= ids.filter(p).len() + ids.filter(q).len(),
    decreases ids.len(),
{
    reveal(Seq::filter);
    if ids.len() > 0 {
        let rest = ids.drop_last();
        assert forall|i: int| 0 <= i < rest.len() && s(#[trigger] rest[i]) implies p(rest[i]) || q(rest[i]) by {
            assert(rest[i] == ids[i]);
        }
        lemma_count_either(rest, p, q, s);
        assert(ids[ids.len() - 1] == ids.last());
    }
}

proof fn lemma_count_members(ids: Seq<Text>, list: Seq<Text>)
    requires
        ids.no_duplicates(),
    ensures
        ids.filter(|x: Text| list.contains(x)).len() <= list.len(),
{
    let p = |x: Text| list.contains(x);
    let got = ids.filter(p);
    assert forall|a: int, b: int| 0 <= a < b < got.len() implies got[a] != got[b] by {
        lemma_filter_keeps_distinct(ids, p, a, b);
    }
    got.unique_seq_to_set();
    assert(got.to_set().subset_of(list.to_set())) by {
        assert forall|x: Text| got.to_set().contains(x) implies #[trigger] list.to_set().contains(x) by {
            let i = choose|i: int| 0 <= i < got.len() && got[i] == x;
            ids.lemma_filter_pred(p, i);
        }
    }
    seq_to_set_is_finite(list);
    vstd::set_lib::lemma_len_subset(got.to_set(), list.to_set());
    list.lemma_cardinality_of_set();
}

proof fn lemma_filter_keeps_distinct(ids: Seq<Text>, p: spec_fn(Text) -> bool, a: int, b: int)
    requires
        ids.no_duplicates(),
        0 <= a < b < ids.filter(p).len(),
    ensures
        ids.filter(p)[a] != ids.filter(p)[b],
    decreases ids.len(),
{
    reveal(Seq::filter);
    let rest = ids.drop_last();
    if p(ids.last()) && b == ids.filter(p).len() - 1 {
        let x = rest.filter(p)[a];
        rest.lemma_filter_contains_rev(p, x);
        assert(rest.filter(p).contains(x));
        let i = choose|i: int| 0 <= i < rest.len() && rest[i] == x;
        assert(ids[i] == x);
    } else {
        lemma_filter_keeps_distinct(rest, p, a, b);
    }
}

/// Scheduling never brings more than the cap to run at once, across the whole run.
pub proof fn law_never_over_the_cap(r: RunView, now: Text)
    requires
        consistent(r),
        running_nodes(r.plan, r.statuses) <= CONCURRENCY_CAP,
    ensures
        running_nodes(pumped(r, now).plan, pumped(r, now).statuses) <= CONCURRENCY_CAP,
{
    if r.ended is None {
        lemma_status_words();
        law_scheduling_keeps_consistency(r, now);
        law_cap_is_kept_and_used(r.plan, r.statuses);
        let q = pumped(r, now);
        let order = texts(r.plan.order@);
        let list = starts(r.plan, r.statuses);
        let was = |x: Text| status_of(r.statuses, x) == "running"@;
        let is = |x: Text| status_of(q.statuses, x) == "running"@;
        let new = |x: Text| list.contains(x);
        if order.len() > 0 {
            lemma_after_pump(r, now, 0);
        } else {
            lemma_mark_all(r, skips(r.plan, r.statuses), "skipped"@, now);
            lemma_mark_all(mark_all(r, skips(r.plan, r.statuses), "skipped"@, now), list, "running"@, now);
        }
        assert(q.plan == r.plan);
        assert(order.no_duplicates()) by {
            assert forall|a: int, b: int| 0 <= a < b < order.len() implies order[a] != order[b] by {
                assert(r.nodes[a].id != r.nodes[b].id);
            }
        }
        assert forall|i: int| 0 <= i < order.len() && is(#[trigger] order[i]) implies was(order[i]) || new(order[i]) by {
            lemma_after_pump(r, now, i);
            assert(nodes_of(r.plan).contains(order[i]));
            lemma_status_in(r, order[i]);
            lemma_status_in(q, order[i]);
            lemma_find(r, i);
            lemma_find(q, i);
            assert(r.nodes[i].id == order[i]);
            assert(q.nodes[i].id == order[i]);
        }
        lemma_count_either(order, was, new, is);
        lemma_count_members(order, list);
    }
}

// ---- the end of a run ----

/// A run that ended stays as it is: it is scheduled, settled and cancelled without effect.
pub proof fn law_ended_runs_stay_ended(r: RunView, now: Text)
    requires
        r.ended is Some,
    ensures
        pumped(r, now) == r,
        launches(r).len() == 0,
        settled(r, now) == r,
        canceled(r, now) == r,
{
}

/// Cancelling twice is cancelling once.
pub proof fn law_cancel_is_idempotent(r: RunView, now: Text, later: Text)
    ensures
        canceled(canceled(r, now), later) == canceled(r, now),
{
    if cancellable(r) {
        crate::flow::runner::lemma_mark_all_frame(RunView { canceling: true, ..r }, waiting_ids(r.nodes), "skipped"@, now);
    }
}

/// A run that ends as done holds no node that failed or was cancelled, and was not being
/// cancelled itself.
pub proof fn law_done_runs_hold_no_failure(r: RunView, now: Text, i: int)
    requires
        consistent(r),
        settles(r),
        settled(r, now).status == "done"@,
        0 <= i < r.nodes.len(),
    ensures
        r.nodes[i].status == "done"@ || r.nodes[i].status == "skipped"@,
        !r.canceling,
{
    lemma_status_words();
    lemma_words_done();
    assert(r.statuses.contains_key(r.nodes[i].id));
    law_done_means_nothing_failed(r.statuses, r.nodes[i].id);
}

proof fn lemma_words_done()
    ensures
        "canceled"@ != "done"@,
{
    reveal_strlit("canceled");
    reveal_strlit("done");
    assert("canceled"@[0] == 'c');
    assert("done"@[0] == 'd');
}

/// A run that was cancelled never ends as done.
pub proof fn law_cancelled_runs_never_end_done(r: RunView, now: Text)
    requires
        r.canceling,
        settles(r),
    ensures
        settled(r, now).status != "done"@,
{
    lemma_words_done();
}

/// A node that is written off before it started has neither started nor ended.
pub proof fn law_skipped_nodes_never_started(n: NodeView, now: Text)
    requires
        n.started is None,
        n.ended is None,
    ensures
        mark_node(n, "skipped"@, None, now).started is None,
        mark_node(n, "skipped"@, None, now).ended is None,
        mark_node(n, "skipped"@, None, now).exit == n.exit,
{
    lemma_status_words();
    reveal_strlit("skipped");
    reveal_strlit("running");
    assert("skipped"@[0] == 's');
    assert("running"@[0] == 'r');
}

/// A process that exits in a run being cancelled leaves its node cancelled, whatever its exit
/// code; otherwise zero is success and everything else a failure.
pub proof fn law_cancelled_beats_failed(code: Option<i32>)
    ensures
        exit_status(true, code) == "canceled"@,
        exit_status(false, code) == "done"@ <==> code == Some(0i32),
        exit_status(false, code) == "failed"@ <==> code != Some(0i32),
{
    lemma_status_words();
    reveal_strlit("done");
    reveal_strlit("failed");
    assert("done"@[0] == 'd');
    assert("failed"@[0] == 'f');
}

// ---- the list of runs ----

/// The list is sorted by start, newest first.
pub open spec fn sorted_by_start(list: Seq<RunShot>) -> bool {
    forall|i: int, j: int| 0 <= i < j < list.len() ==> !lex_less((#[trigger] list[i]).started, (#[trigger] list[j]).started)
}

proof fn lemma_place(list: Seq<RunShot>, x: RunShot)
    requires
        sorted_by_start(list),
    ensures
        sorted_by_start(placed_by_start(list, x)),
        placed_by_start(list, x).len() == list.len() + 1,
        placed_by_start(list, x).to_multiset() == list.to_multiset().insert(x),
        forall|i: int|
            0 <= i < placed_by_start(list, x).len() ==> (#[trigger] placed_by_start(list, x)[i]) == x || list.contains(
                placed_by_start(list, x)[i],
            ),
    decreases list.len(),
{
    broadcast use group_to_multiset_ensures;

    let out = placed_by_start(list, x);
    if list.len() > 0 && lex_less(list.last().started, x.started) {
        let rest = list.drop_last();
        assert forall|i: int, j: int| 0 <= i < j < rest.len() implies !lex_less((#[trigger] rest[i]).started, (#[trigger] rest[j]).started) by {
            assert(!lex_less(list[i].started, list[j].started));
        }
        lemma_place(rest, x);
        let inner = placed_by_start(rest, x);
        assert(out == inner.push(list.last()));
        assert forall|i: int, j: int| 0 <= i < j < out.len() implies !lex_less((#[trigger] out[i]).started, (#[trigger] out[j]).started) by {
            if j < inner.len() {
                assert(!lex_less(inner[i].started, inner[j].started));
            } else {
                lemma_lex_total(x.started, list.last().started);
                if inner[i] != x {
                    assert(rest.contains(inner[i]));
                    let k = choose|k: int| 0 <= k < rest.len() && rest[k] == inner[i];
                    assert(!lex_less(list[k].started, list[list.len() - 1].started));
                }
            }
        }
        assert(list =~= rest.push(list.last()));
        assert(out.to_multiset() =~= list.to_multiset().insert(x));
        assert forall|i: int| 0 <= i < out.len() implies (#[trigger] out[i]) == x || list.contains(out[i]) by {
            if i < inner.len() {
                assert(inner[i] == out[i]);
                if inner[i] != x {
                    let k = choose|k: int| 0 <= k < rest.len() && rest[k] == inner[i];
                    assert(list[k] == out[i]);
                }
            } else {
                assert(list[list.len() - 1] == out[i]);
            }
        }
    } else {
        assert forall|i: int, j: int| 0 <= i < j < out.len() implies !lex_less((#[trigger] out[i]).started, (#[trigger] out[j]).started) by {
            if j < list.len() {
                assert(!lex_less(list[i].started, list[j].started));
            } else if list.len() > 0 {
                if i < list.len() - 1 {
                    assert(!lex_less(list[i].started, list[list.len() - 1].started));
                }
                lemma_lex_total(list[i].started, list.last().started);
                lemma_lex_total(list.last().started, x.started);
                if lex_less(list[i].started, x.started) {
                    if list[i].started != list.last().started {
                        lemma_lex_transitive(list.last().started, list[i].started, x.started);
                    }
                }
            }
        }
        assert forall|i: int| 0 <= i < out.len() implies (#[trigger] out[i]) == x || list.contains(out[i]) by {
            if i < list.len() {
                assert(list[i] == out[i]);
            }
        }
    }
}

/// The list of runs shows every run once, the newest first.
pub proof fn law_newest_runs_come_first(list: Seq<RunShot>)
    ensures
        sorted_by_start(newest_first(list)),
        newest_first(list).to_multiset() == list.to_multiset(),
    decreases list.len(),
{
    broadcast use group_to_multiset_ensures;

    if list.len() > 0 {
        law_newest_runs_come_first(list.drop_last());
        lemma_place(newest_first(list.drop_last()), list.last());
        assert(list =~= list.drop_last().push(list.last()));
        assert(newest_first(list).to_multiset() =~= list.to_multiset());
    } else {
        assert(newest_first(list) =~= list);
    }
}

/// A snapshot is of the run itself: every field that tells which run it is, of which file, where
/// and how far, is the run's own, and so is what every node shows, node for node.
pub proof fn law_snapshots_are_of_the_run_itself(run: RunState, shot: RunSnapshot)
    requires
        shot@ == shot_of(run@),
    ensures
        shot.id@ == run.id@,
        shot.flow@ == run.flow@,
        shot.flow_path@ == run.flow_path@,
        shot.root@ == run.root@,
        shot.dir@ == run.dir@,
        shot.status@ == run.status@,
        shot.started@ == run.started@,
        opt_text(shot.ended) == opt_text(run.ended),
        shot.canceling == run.canceling,
        shot.airgap == run.gapped,
        rows(shot.layers@) == rows(run.plan.layers@),
        shot.nodes@.len() == run.nodes@.len(),
        forall|i: int|
            #![trigger shot.nodes@[i]]
            #![trigger run.nodes@[i]]
            0 <= i < run.nodes@.len() ==> {
                let s = shot.nodes@[i];
                let n = run.nodes@[i];
                &&& s.id@ == n.id@
                &&& s.name@ == n.name@
                &&& s.kind@ == n.kind@
                &&& opt_text(s.model) == opt_text(n.model)
                &&& s.status@ == n.status@
                &&& opt_text(s.started) == opt_text(n.started)
                &&& opt_text(s.ended) == opt_text(n.ended)
                &&& s.exit == n.exit
                &&& s.log@ == n.log@
                &&& run.plan.parents@.contains_key(n.id@) ==> texts(s.parents@) == texts(run.plan.parents@[n.id@]@)
            },
{
    assert(shot@.nodes.len() == shot.nodes@.len());
    assert(run@.nodes.len() == run.nodes@.len());
    assert(shot_of(run@).nodes.len() == run@.nodes.len());
    assert forall|i: int|
        #![trigger shot.nodes@[i]]
        #![trigger run.nodes@[i]]
        0 <= i < run.nodes@.len() implies {
            let s = shot.nodes@[i];
            let n = run.nodes@[i];
            &&& s.id@ == n.id@
            &&& s.name@ == n.name@
            &&& s.kind@ == n.kind@
            &&& opt_text(s.model) == opt_text(n.model)
            &&& s.status@ == n.status@
            &&& opt_text(s.started) == opt_text(n.started)
            &&& opt_text(s.ended) == opt_text(n.ended)
            &&& s.exit == n.exit
            &&& s.log@ == n.log@
            &&& run.plan.parents@.contains_key(n.id@) ==> texts(s.parents@) == texts(run.plan.parents@[n.id@]@)
        } by {
        assert(shot@.nodes[i] == shot.nodes@[i]@);
        assert(shot_of(run@).nodes[i] == node_shot(run.plan, run@.nodes[i]));
        assert(run@.nodes[i] == run.nodes@[i]@);
    }
}

/// Every run is listed, under its own id, its own file and its own status, and nothing else is.
pub proof fn law_every_run_is_listed(runs: Seq<RunState>, list: Seq<RunSnapshot>)
    requires
        shots(list) == newest_first(run_shots(runs)),
    ensures
        list.len() == runs.len(),
        forall|i: int|
            0 <= i < runs.len() ==> exists|k: int|
                0 <= k < list.len() && list[k].id@ == (#[trigger] runs[i]).id@ && (#[trigger] list[k]).flow_path@ == runs[i].flow_path@
                    && list[k].status@ == runs[i].status@ && list[k].started@ == runs[i].started@,
        forall|k: int|
            0 <= k < list.len() ==> exists|i: int|
                0 <= i < runs.len() && (#[trigger] list[k]).id@ == (#[trigger] runs[i]).id@ && list[k].flow_path@ == runs[i].flow_path@
                    && list[k].status@ == runs[i].status@ && list[k].started@ == runs[i].started@,
{
    broadcast use group_to_multiset_ensures;

    let all = run_shots(runs);
    let shown = shots(list);
    law_newest_runs_come_first(all);
    assert(shown.to_multiset() == all.to_multiset());
    assert(shown.len() == shown.to_multiset().len());
    assert(all.len() == all.to_multiset().len());
    assert forall|i: int| 0 <= i < runs.len() implies exists|k: int|
        0 <= k < list.len() && list[k].id@ == (#[trigger] runs[i]).id@ && (#[trigger] list[k]).flow_path@ == runs[i].flow_path@
            && list[k].status@ == runs[i].status@ && list[k].started@ == runs[i].started@ by {
        assert(all[i] == shot_of(runs[i]@));
        assert(all.contains(all[i]));
        assert(all.to_multiset().count(all[i]) > 0);
        assert(shown.contains(all[i]));
        let k = choose|k: int| 0 <= k < shown.len() && shown[k] == all[i];
        assert(list[k]@ == shot_of(runs[i]@));
        law_snapshots_are_of_the_run_itself(runs[i], list[k]);
    }
    assert forall|k: int| 0 <= k < list.len() implies exists|i: int|
        0 <= i < runs.len() && (#[trigger] list[k]).id@ == (#[trigger] runs[i]).id@ && list[k].flow_path@ == runs[i].flow_path@
            && list[k].status@ == runs[i].status@ && list[k].started@ == runs[i].started@ by {
        assert(shown[k] == list[k]@);
        assert(shown.contains(shown[k]));
        assert(shown.to_multiset().count(shown[k]) > 0);
        assert(all.contains(shown[k]));
        let i = choose|i: int| 0 <= i < all.len() && all[i] == shown[k];
        assert(all[i] == shot_of(runs[i]@));
        law_snapshots_are_of_the_run_itself(runs[i], list[k]);
    }
}

}

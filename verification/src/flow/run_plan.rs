//! Scheduling core for background flow runs: which nodes may start right now, and what becomes
//! of everything downstream of a node that failed or was cancelled.

use vstd::prelude::*;
use vstd::seq_lib::*;
use vstd::string::*;

use crate::flow::graph::{cyclic, distinct, law_edges_lead_forward, law_every_node_placed_once, layering, layers, live, pairs, rows, walkable, Text};
use crate::strmap::StrMap;
use crate::text::{contains_text, copy_texts, same, texts};

verus! {

/// Two at a time across the whole run, not two per layer: the machine stays usable while a flow
/// runs in the background.
pub const CONCURRENCY_CAP: usize = 2;

/// A background node has no pane of its own; the pane id minted for it starts with this.
pub const RUN_PANE_PREFIX: &'static str = "run:";

/// The air-gap pane id of a node of a background run.
pub fn run_pane_id(run_id: &str, node_id: &str) -> (r: String)
    ensures
        r@ == "run:"@ + run_id@ + ":"@ + node_id@,
{
    let mut out = "run:".to_owned();
    out.append(run_id);
    out.append(":");
    out.append(node_id);
    out
}

// ---- statuses ----

/// A status after which a node does not change any more.
pub open spec fn terminal(s: Text) -> bool {
    s == "done"@ || blocking(s)
}

/// A status that writes off everything downstream.
pub open spec fn blocking(s: Text) -> bool {
    s == "failed"@ || s == "canceled"@ || s == "skipped"@
}

/// The status of `id`; a node without one is pending.
pub open spec fn status_of(state: Map<Text, Text>, id: Text) -> Text {
    if state.contains_key(id) {
        state[id]
    } else {
        "pending"@
    }
}

/// The values of a string map by their views.
pub open spec fn words(m: Map<Text, String>) -> Map<Text, Text> {
    m.map_values(|s: String| s@)
}

pub fn is_blocking(s: &str) -> (r: bool)
    ensures
        r == blocking(s@),
{
    same(s, "failed") || same(s, "canceled") || same(s, "skipped")
}

pub fn is_terminal(s: &str) -> (r: bool)
    ensures
        r == terminal(s@),
{
    same(s, "done") || is_blocking(s)
}

fn status<'a>(state: &'a StrMap<String>, id: &str) -> (r: &'a str)
    ensures
        r@ == status_of(words(state@), id@),
{
    match state.get(id) {
        Some(s) => s.as_str(),
        None => "pending",
    }
}

// ---- the plan ----

/// The immutable half of a run: the layers to walk, and each node's direct parents.
pub struct RunPlan {
    pub layers: Vec<Vec<String>>,
    pub order: Vec<String>,
    pub parents: StrMap<Vec<String>>,
}

/// The sources of the edges into `id`, each once, in the order of its first edge.
pub open spec fn parents_of(es: Seq<(Text, Text)>, id: Text) -> Seq<Text>
    decreases es.len(),
{
    if es.len() == 0 {
        Seq::empty()
    } else {
        let before = parents_of(es.drop_last(), id);
        if es.last().1 == id && !before.contains(es.last().0) {
            before.push(es.last().0)
        } else {
            before
        }
    }
}

/// `plan` is the plan of the flow with these nodes and edges.
pub open spec fn is_plan(plan: RunPlan, ids: Seq<Text>, edges: Seq<(Text, Text)>) -> bool {
    &&& rows(plan.layers@) == layering(ids, edges)
    &&& texts(plan.order@) == layering(ids, edges).flatten()
    &&& plan.parents@.dom() == ids.to_set()
    &&& forall|id: Text| ids.contains(id) ==> texts((#[trigger] plan.parents@[id])@) == parents_of(live(ids, edges), id)
}

/// All strings of `v`, row after row.
pub fn flatten(v: &Vec<Vec<String>>) -> (r: Vec<String>)
    ensures
        texts(r@) == rows(v@).flatten(),
{
    let mut out: Vec<String> = Vec::new();
    let mut i: usize = 0;
    assert(rows(v@).take(0).flatten() =~= Seq::<Text>::empty());
    assert(texts(out@) =~= Seq::<Text>::empty());
    while i < v.len()
        invariant
            i <= v@.len(),
            texts(out@) == rows(v@).take(i as int).flatten(),
        decreases v@.len() - i,
    {
        let ghost before = texts(out@);
        let ghost row = texts(v@[i as int]@);
        let mut j: usize = 0;
        assert(row.take(0) =~= Seq::<Text>::empty());
        assert(before + row.take(0) =~= before);
        while j < v[i].len()
            invariant
                i < v@.len(),
                j <= v@[i as int]@.len(),
                row == texts(v@[i as int]@),
                texts(out@) == before + row.take(j as int),
            decreases v@[i as int]@.len() - j,
        {
            let ghost now = texts(out@);
            out.push(v[i][j].clone());
            assert(texts(out@) =~= now.push(row[j as int]));
            assert(row.take(j + 1) =~= row.take(j as int).push(row[j as int]));
            assert(texts(out@) =~= before + row.take(j + 1));
            j += 1;
        }
        proof {
            assert(row.take(row.len() as int) =~= row);
            assert(rows(v@).take(i + 1) =~= rows(v@).take(i as int).push(row));
            rows(v@).take(i as int).lemma_flatten_push(row);
        }
        i += 1;
    }
    assert(rows(v@).take(v@.len() as int) =~= rows(v@));
    out
}

/// The plan of a flow; `None` on a cycle.
pub fn run_plan(node_ids: &[String], edges: &[(String, String)]) -> (r: Option<RunPlan>)
    requires
        walkable(texts(node_ids@), pairs(edges@)),
    ensures
        r is Some <==> layering(texts(node_ids@), pairs(edges@)).flatten().len() == node_ids@.len(),
        r matches Some(plan) ==> is_plan(plan, texts(node_ids@), pairs(edges@)),
{
    let ghost ids = texts(node_ids@);
    let ghost all = pairs(edges@);
    let ls = match layers(node_ids, edges) {
        Some(ls) => ls,
        None => return None,
    };
    let mut parents: StrMap<Vec<String>> = StrMap::new();
    let mut n: usize = 0;
    assert(ids.take(0).to_set() =~= Set::<Text>::empty());
    assert(parents@.dom() =~= Set::<Text>::empty());
    while n < node_ids.len()
        invariant
            n <= node_ids@.len(),
            ids == texts(node_ids@),
            parents@.dom() == ids.take(n as int).to_set(),
            forall|id: Text| parents@.contains_key(id) ==> (#[trigger] parents@[id])@.len() == 0,
        decreases node_ids@.len() - n,
    {
        proof {
            assert(ids.take(n + 1) =~= ids.take(n as int).push(ids[n as int]));
            ids.take(n as int).lemma_push_to_set_commute(ids[n as int]);
        }
        parents.set(&node_ids[n], Vec::new());
        assert(parents@.dom() =~= ids.take(n + 1).to_set());
        n += 1;
    }
    assert(ids.take(node_ids@.len() as int) =~= ids);
    let ghost p = |e: (Text, Text)| ids.contains(e.0) && ids.contains(e.1);
    let mut i: usize = 0;
    assert(all.take(0).filter(p) =~= Seq::<(Text, Text)>::empty()) by {
        reveal(Seq::filter);
    }
    assert forall|id: Text| ids.contains(id) implies texts((#[trigger] parents@[id])@) == parents_of(all.take(0).filter(p), id) by {
        assert(parents@.dom().contains(id));
        assert(texts(parents@[id]@) =~= Seq::<Text>::empty());
    }
    while i < edges.len()
        invariant
            i <= edges@.len(),
            ids == texts(node_ids@),
            all == pairs(edges@),
            p == (|e: (Text, Text)| ids.contains(e.0) && ids.contains(e.1)),
            parents@.dom() == ids.to_set(),
            forall|id: Text| ids.contains(id) ==> texts((#[trigger] parents@[id])@) == parents_of(all.take(i as int).filter(p), id),
        decreases edges@.len() - i,
    {
        let ghost es = all.take(i as int).filter(p);
        let ghost e = all[i as int];
        proof {
            assert(all.take(i + 1) =~= all.take(i as int).push(e));
            all.take(i as int).lemma_filter_push(e, p);
            assert(es.push(e).drop_last() =~= es);
            assert(parents@.contains_key(e.0) == ids.contains(e.0));
            assert(parents@.contains_key(e.1) == ids.contains(e.1));
        }
        let from = &edges[i].0;
        let to = &edges[i].1;
        if parents.contains(from) {
            match parents.get(to) {
                Some(list) => {
                    if !contains_text(list, from) {
                        let ghost before = texts(list@);
                        let mut longer = copy_texts(list);
                        longer.push(from.clone());
                        assert(texts(longer@) =~= before.push(e.0));
                        let ghost kept = parents@;
                        parents.set(to, longer);
                        proof {
                            assert(parents@.dom() =~= ids.to_set());
                            assert forall|id: Text| ids.contains(id) implies texts((#[trigger] parents@[id])@) == parents_of(es.push(e), id) by {
                                if id != e.1 {
                                    assert(parents@[id] == kept[id]);
                                }
                            }
                        }
                    }
                },
                None => {},
            }
        }
        i += 1;
    }
    assert(all.take(edges@.len() as int) =~= all);
    let order = flatten(&ls);
    Some(RunPlan { layers: ls, order, parents })
}


// ---- what to do next ----

/// What the runner should do next, given where every node currently stands.
pub struct NextActions {
    pub start: Vec<String>,
    pub skip: Vec<String>,
}

pub open spec fn parents_in(plan: RunPlan, id: Text) -> Seq<Text> {
    if plan.parents@.contains_key(id) {
        texts(plan.parents@[id]@)
    } else {
        Seq::empty()
    }
}

/// A pending node is doomed when a parent of it is, or has a blocking status.
pub open spec fn doomed(plan: RunPlan, state: Map<Text, Text>, before: Seq<Text>, id: Text) -> bool {
    &&& status_of(state, id) == "pending"@
    &&& exists|i: int|
        0 <= i < parents_in(plan, id).len() && (before.contains(#[trigger] parents_in(plan, id)[i])
            || blocking(status_of(state, parents_in(plan, id)[i])))
}

/// The nodes written off when `nodes` are looked at in order.
pub open spec fn written_off(plan: RunPlan, state: Map<Text, Text>, nodes: Seq<Text>) -> Seq<Text>
    decreases nodes.len(),
{
    if nodes.len() == 0 {
        Seq::empty()
    } else {
        let before = written_off(plan, state, nodes.drop_last());
        if doomed(plan, state, before, nodes.last()) {
            before.push(nodes.last())
        } else {
            before
        }
    }
}

/// The nodes in the order in which the layers hold them.
pub open spec fn nodes_of(plan: RunPlan) -> Seq<Text> {
    rows(plan.layers@).flatten()
}

pub open spec fn skips(plan: RunPlan, state: Map<Text, Text>) -> Seq<Text> {
    written_off(plan, state, nodes_of(plan))
}

/// A node that may start: pending, not written off, every parent done.
pub open spec fn eligible(plan: RunPlan, state: Map<Text, Text>, id: Text) -> bool {
    &&& status_of(state, id) == "pending"@
    &&& !skips(plan, state).contains(id)
    &&& forall|i: int| 0 <= i < parents_in(plan, id).len() ==> status_of(state, #[trigger] parents_in(plan, id)[i]) == "done"@
}

/// How many nodes of the run are running.
pub open spec fn running_nodes(plan: RunPlan, state: Map<Text, Text>) -> nat {
    texts(plan.order@).filter(|id: Text| status_of(state, id) == "running"@).len()
}

/// How many nodes the cap leaves room for.
pub open spec fn room(plan: RunPlan, state: Map<Text, Text>) -> nat {
    if running_nodes(plan, state) >= CONCURRENCY_CAP {
        0
    } else {
        (CONCURRENCY_CAP - running_nodes(plan, state)) as nat
    }
}

/// Every node that may start, in layer order.
pub open spec fn startable(plan: RunPlan, state: Map<Text, Text>) -> Seq<Text> {
    nodes_of(plan).filter(|id: Text| eligible(plan, state, id))
}

/// The nodes that start: the first of those that may, as far as the cap leaves room.
pub open spec fn starts(plan: RunPlan, state: Map<Text, Text>) -> Seq<Text> {
    let all = startable(plan, state);
    if all.len() <= room(plan, state) {
        all
    } else {
        all.take(room(plan, state) as int)
    }
}

fn parents_list<'a>(plan: &'a RunPlan, id: &str, none: &'a Vec<String>) -> (r: &'a Vec<String>)
    requires
        none@.len() == 0,
    ensures
        texts(r@) == parents_in(*plan, id@),
{
    match plan.parents.get(id) {
        Some(list) => list,
        None => {
            assert(texts(none@) =~= Seq::<Text>::empty());
            none
        },
    }
}

fn is_doomed(plan: &RunPlan, state: &StrMap<String>, skip: &Vec<String>, id: &str) -> (r: bool)
    ensures
        r == doomed(*plan, words(state@), texts(skip@), id@),
{
    if !same(status(state, id), "pending") {
        return false;
    }
    let none: Vec<String> = Vec::new();
    let parents = parents_list(plan, id, &none);
    let mut i: usize = 0;
    while i < parents.len()
        invariant
            i <= parents@.len(),
            status_of(words(state@), id@) == "pending"@,
            texts(parents@) == parents_in(*plan, id@),
            forall|j: int| 0 <= j < i ==> !(texts(skip@).contains(#[trigger] parents_in(*plan, id@)[j])
                || blocking(status_of(words(state@), parents_in(*plan, id@)[j]))),
        decreases parents@.len() - i,
    {
        assert(parents@[i as int]@ == parents_in(*plan, id@)[i as int]);
        if contains_text(skip, &parents[i]) || is_blocking(status(state, &parents[i])) {
            return true;
        }
        i += 1;
    }
    false
}

fn is_eligible(plan: &RunPlan, state: &StrMap<String>, skip: &Vec<String>, id: &str) -> (r: bool)
    requires
        texts(skip@) == skips(*plan, words(state@)),
    ensures
        r == eligible(*plan, words(state@), id@),
{
    if !same(status(state, id), "pending") || contains_text(skip, id) {
        return false;
    }
    let none: Vec<String> = Vec::new();
    let parents = parents_list(plan, id, &none);
    let mut i: usize = 0;
    while i < parents.len()
        invariant
            i <= parents@.len(),
            texts(parents@) == parents_in(*plan, id@),
            forall|j: int| 0 <= j < i ==> status_of(words(state@), #[trigger] parents_in(*plan, id@)[j]) == "done"@,
        decreases parents@.len() - i,
    {
        assert(parents@[i as int]@ == parents_in(*plan, id@)[i as int]);
        if !same(status(state, &parents[i]), "done") {
            return false;
        }
        i += 1;
    }
    true
}

/// How many of `ids` have the status `running`.
fn count_running(ids: &Vec<String>, state: &StrMap<String>) -> (r: usize)
    ensures
        r == texts(ids@).filter(|id: Text| status_of(words(state@), id) == "running"@).len(),
{
    let ghost p = |id: Text| status_of(words(state@), id) == "running"@;
    let ghost all = texts(ids@);
    let mut n: usize = 0;
    let mut i: usize = 0;
    assert(all.take(0).filter(p).len() == 0) by {
        reveal(Seq::filter);
    }
    while i < ids.len()
        invariant
            i <= ids@.len(),
            all == texts(ids@),
            p == (|id: Text| status_of(words(state@), id) == "running"@),
            n <= i,
            n == all.take(i as int).filter(p).len(),
        decreases ids@.len() - i,
    {
        proof {
            assert(all.take(i + 1) =~= all.take(i as int).push(all[i as int]));
            all.take(i as int).lemma_filter_push(all[i as int], p);
        }
        if same(status(state, &ids[i]), "running") {
            n += 1;
        }
        i += 1;
    }
    assert(all.take(ids@.len() as int) =~= all);
    n
}

/// What may start now and what is written off, computed from the plan and the statuses alone.
pub fn next_actions(plan: &RunPlan, state: &StrMap<String>) -> (r: NextActions)
    ensures
        texts(r.skip@) == skips(*plan, words(state@)),
        texts(r.start@) == starts(*plan, words(state@)),
{
    let nodes = flatten(&plan.layers);
    let ghost all = nodes_of(*plan);
    let mut skip: Vec<String> = Vec::new();
    let mut i: usize = 0;
    assert(texts(skip@) =~= Seq::<Text>::empty());
    assert(all.take(0) =~= Seq::<Text>::empty());
    while i < nodes.len()
        invariant
            i <= nodes@.len(),
            all == nodes_of(*plan),
            texts(nodes@) == all,
            texts(skip@) == written_off(*plan, words(state@), all.take(i as int)),
        decreases nodes@.len() - i,
    {
        proof {
            assert(all.take(i + 1).drop_last() =~= all.take(i as int));
            assert(all.take(i + 1).last() == nodes@[i as int]@);
        }
        if is_doomed(plan, state, &skip, &nodes[i]) {
            let ghost before = texts(skip@);
            skip.push(nodes[i].clone());
            assert(texts(skip@) =~= before.push(nodes@[i as int]@));
        }
        i += 1;
    }
    assert(all.take(all.len() as int) =~= all);
    let running = count_running(&plan.order, state);
    let ghost p = |id: Text| eligible(*plan, words(state@), id);
    let ghost space = room(*plan, words(state@));
    let mut start: Vec<String> = Vec::new();
    let mut k: usize = 0;
    proof {
        assert(texts(start@) =~= Seq::<Text>::empty());
        assert(all.take(0).filter(p) =~= Seq::<Text>::empty()) by {
            reveal(Seq::filter);
        }
    }
    while k < nodes.len() && running < CONCURRENCY_CAP && start.len() < CONCURRENCY_CAP - running
        invariant
            k <= nodes@.len(),
            all == nodes_of(*plan),
            texts(nodes@) == all,
            p == (|id: Text| eligible(*plan, words(state@), id)),
            texts(skip@) == skips(*plan, words(state@)),
            running == running_nodes(*plan, words(state@)),
            space == room(*plan, words(state@)),
            texts(start@) == all.take(k as int).filter(p),
            start@.len() <= space,
        decreases nodes@.len() - k,
    {
        proof {
            assert(all.take(k + 1) =~= all.take(k as int).push(all[k as int]));
            all.take(k as int).lemma_filter_push(all[k as int], p);
        }
        if is_eligible(plan, state, &skip, &nodes[k]) {
            let ghost before = texts(start@);
            start.push(nodes[k].clone());
            assert(texts(start@) =~= before.push(all[k as int]));
        }
        k += 1;
    }
    proof {
        let got = all.take(k as int).filter(p);
        let rest = all.skip(k as int).filter(p);
        assert(startable(*plan, words(state@)) == all.filter(p));
        assert(all =~= all.take(k as int) + all.skip(k as int));
        Seq::filter_distributes_over_add(all.take(k as int), all.skip(k as int), p);
        assert(all.filter(p) == got + rest);
        if k == nodes@.len() {
            assert(all.skip(k as int) =~= Seq::<Text>::empty());
            reveal(Seq::filter);
            assert(rest =~= Seq::<Text>::empty());
            assert(all.filter(p) =~= got);
            assert(all.filter(p).take(got.len() as int) =~= got);
        } else {
            assert(start@.len() == texts(start@).len());
            assert(got.len() == space);
            assert((got + rest).take(space as int) =~= got);
            if (got + rest).len() <= space {
                assert(got + rest =~= got);
            }
        }
    }
    NextActions { start, skip }
}

// ---- the run's own status ----

/// Some value of `state` satisfies `p`.
pub open spec fn some_status(state: Map<Text, Text>, p: spec_fn(Text) -> bool) -> bool {
    exists|id: Text| state.contains_key(id) && p(#[trigger] state[id])
}

/// A run is running while any node may still change; then cancellation outranks failure, and
/// failure outranks success.
pub open spec fn derived_status(state: Map<Text, Text>) -> Text {
    if some_status(state, |s: Text| !terminal(s)) {
        "running"@
    } else if some_status(state, |s: Text| s == "canceled"@) {
        "canceled"@
    } else if some_status(state, |s: Text| s == "failed"@) {
        "failed"@
    } else {
        "done"@
    }
}

/// The run's own status, derived from its nodes.
pub fn run_status(state: &StrMap<String>) -> (r: &'static str)
    ensures
        r@ == derived_status(words(state@)),
{
    let keys = state.keys();
    let mut canceled = false;
    let mut failed = false;
    let mut i: usize = 0;
    while i < keys.len()
        invariant
            i <= keys@.len(),
            texts(keys@).to_set() == state@.dom(),
            forall|j: int| 0 <= j < i ==> terminal(words(state@)[#[trigger] texts(keys@)[j]]),
            canceled == exists|j: int| 0 <= j < i && words(state@)[#[trigger] texts(keys@)[j]] == "canceled"@,
            failed == exists|j: int| 0 <= j < i && words(state@)[#[trigger] texts(keys@)[j]] == "failed"@,
        decreases keys@.len() - i,
    {
        let ghost id = texts(keys@)[i as int];
        proof {
            assert(texts(keys@).contains(id));
            assert(words(state@).dom().contains(id));
        }
        match state.get(&keys[i]) {
            Some(s) => {
                if !is_terminal(s) {
                    proof {
                        let p = |s: Text| !terminal(s);
                        assert(p(words(state@)[id]));
                    }
                    return "running";
                }
                if same(s, "canceled") {
                    canceled = true;
                }
                if same(s, "failed") {
                    failed = true;
                }
            },
            None => {},
        }
        i += 1;
    }
    proof {
        let running_p = |s: Text| !terminal(s);
        let canceled_p = |s: Text| s == "canceled"@;
        let failed_p = |s: Text| s == "failed"@;
        assert forall|id: Text| words(state@).contains_key(id) implies texts(keys@).contains(id) by {
            assert(texts(keys@).to_set().contains(id));
        }
        if some_status(words(state@), running_p) {
            let id = choose|id: Text| words(state@).contains_key(id) && running_p(#[trigger] words(state@)[id]);
            let j = choose|j: int| 0 <= j < texts(keys@).len() && texts(keys@)[j] == id;
            assert(terminal(words(state@)[texts(keys@)[j]]));
        }
        if some_status(words(state@), canceled_p) {
            let id = choose|id: Text| words(state@).contains_key(id) && canceled_p(#[trigger] words(state@)[id]);
            let j = choose|j: int| 0 <= j < texts(keys@).len() && texts(keys@)[j] == id;
            assert(words(state@)[texts(keys@)[j]] == "canceled"@);
        }
        if some_status(words(state@), failed_p) {
            let id = choose|id: Text| words(state@).contains_key(id) && failed_p(#[trigger] words(state@)[id]);
            let j = choose|j: int| 0 <= j < texts(keys@).len() && texts(keys@)[j] == id;
            assert(words(state@)[texts(keys@)[j]] == "failed"@);
        }
        if canceled {
            let j = choose|j: int| 0 <= j < i && words(state@)[#[trigger] texts(keys@)[j]] == "canceled"@;
            assert(texts(keys@).contains(texts(keys@)[j]));
            assert(words(state@).dom().contains(texts(keys@)[j]));
            assert(canceled_p(words(state@)[texts(keys@)[j]]));
        }
        if failed {
            let j = choose|j: int| 0 <= j < i && words(state@)[#[trigger] texts(keys@)[j]] == "failed"@;
            assert(texts(keys@).contains(texts(keys@)[j]));
            assert(words(state@).dom().contains(texts(keys@)[j]));
            assert(failed_p(words(state@)[texts(keys@)[j]]));
        }
    }
    if canceled {
        return "canceled";
    }
    if failed {
        return "failed";
    }
    "done"
}

// ---- display helpers ----

pub struct RunLike {
    pub status: String,
}

/// A run that counts as live.
pub open spec fn is_live(run: Option<RunLike>) -> bool {
    run matches Some(r) && r.status@ == "running"@
}

/// How many runs are live; a hole in the list counts for nothing.
pub fn running_count(runs: &[Option<RunLike>]) -> (r: usize)
    ensures
        r == runs@.filter(|run: Option<RunLike>| is_live(run)).len(),
{
    let ghost p = |run: Option<RunLike>| is_live(run);
    let mut n: usize = 0;
    let mut i: usize = 0;
    assert(runs@.take(0).filter(p).len() == 0) by {
        reveal(Seq::filter);
    }
    while i < runs.len()
        invariant
            i <= runs@.len(),
            p == (|run: Option<RunLike>| is_live(run)),
            n <= i,
            n == runs@.take(i as int).filter(p).len(),
        decreases runs@.len() - i,
    {
        proof {
            assert(runs@.take(i + 1) =~= runs@.take(i as int).push(runs@[i as int]));
            runs@.take(i as int).lemma_filter_push(runs@[i as int], p);
        }
        match &runs[i] {
            Some(run) => {
                if same(&run.status, "running") {
                    n += 1;
                }
            },
            None => {},
        }
        i += 1;
    }
    assert(runs@.take(runs@.len() as int) =~= runs@);
    n
}


// ---- laws ----

/// The six statuses a node goes through.
pub open spec fn known_status(s: Text) -> bool {
    s == "pending"@ || s == "running"@ || terminal(s)
}

pub proof fn lemma_status_words()
    ensures
        "pending"@ != "running"@,
        "pending"@ != "done"@,
        "running"@ != "done"@,
        !blocking("pending"@),
        !blocking("running"@),
        !blocking("done"@),
        "canceled"@ != "failed"@,
        "canceled"@ != "skipped"@,
        "failed"@ != "skipped"@,
{
    reveal_strlit("pending");
    reveal_strlit("running");
    reveal_strlit("done");
    reveal_strlit("failed");
    reveal_strlit("canceled");
    reveal_strlit("skipped");
    assert("pending"@[0] == 'p');
    assert("running"@[0] == 'r');
    assert("done"@[0] == 'd');
    assert("failed"@[0] == 'f');
    assert("canceled"@[0] == 'c');
    assert("skipped"@[0] == 's');
}

/// No node is both started and written off, and whatever starts was pending with every parent
/// done: a node that has already run is never started again.
pub proof fn law_starts_are_fresh(plan: RunPlan, state: Map<Text, Text>, id: Text)
    requires
        starts(plan, state).contains(id),
    ensures
        !skips(plan, state).contains(id),
        status_of(state, id) == "pending"@,
        forall|i: int| 0 <= i < parents_in(plan, id).len() ==> status_of(state, #[trigger] parents_in(plan, id)[i]) == "done"@,
{
    let p = |x: Text| eligible(plan, state, x);
    let all = nodes_of(plan).filter(p);
    let j = choose|j: int| 0 <= j < starts(plan, state).len() && starts(plan, state)[j] == id;
    assert(all[j] == id);
    nodes_of(plan).lemma_filter_pred(p, j);
}

/// Whatever is written off was pending.
pub proof fn law_only_pending_is_skipped(plan: RunPlan, state: Map<Text, Text>, id: Text)
    requires
        skips(plan, state).contains(id),
    ensures
        status_of(state, id) == "pending"@,
{
    lemma_written_off_pending(plan, state, nodes_of(plan), id);
}

proof fn lemma_written_off_pending(plan: RunPlan, state: Map<Text, Text>, nodes: Seq<Text>, id: Text)
    requires
        written_off(plan, state, nodes).contains(id),
    ensures
        status_of(state, id) == "pending"@,
        nodes.contains(id),
    decreases nodes.len(),
{
    let before = written_off(plan, state, nodes.drop_last());
    let out = written_off(plan, state, nodes);
    let j = choose|j: int| 0 <= j < out.len() && out[j] == id;
    if j < before.len() {
        assert(before.contains(id));
        lemma_written_off_pending(plan, state, nodes.drop_last(), id);
        let k = choose|k: int| 0 <= k < nodes.drop_last().len() && nodes.drop_last()[k] == id;
        assert(nodes[k] == id);
    } else {
        assert(nodes[nodes.len() - 1] == id);
    }
}

/// Starting what `next_actions` says never brings more than the cap to run at once, unless that
/// many were running already; and nothing that may start waits while there is room.
pub proof fn law_cap_is_kept_and_used(plan: RunPlan, state: Map<Text, Text>)
    ensures
        running_nodes(plan, state) <= CONCURRENCY_CAP
            ==> running_nodes(plan, state) + starts(plan, state).len() <= CONCURRENCY_CAP,
        starts(plan, state).len() < room(plan, state) ==> starts(plan, state) == startable(plan, state),
{
}

proof fn lemma_flat_position(ls: Seq<Seq<Text>>, k: int, i: int) -> (r: int)
    requires
        0 <= k < ls.len(),
        0 <= i < ls[k].len(),
    ensures
        r == ls.take(k).flatten().len() + i,
        0 <= r < ls.take(k + 1).flatten().len() <= ls.flatten().len(),
        ls.flatten()[r] == ls[k][i],
    decreases ls.len(),
{
    let init = ls.drop_last();
    assert(ls =~= init.push(ls.last()));
    init.lemma_flatten_push(ls.last());
    assert(ls.flatten() =~= init.flatten() + ls.last());
    if k == ls.len() - 1 {
        assert(ls.take(k) =~= init);
        assert(ls.take(k + 1) =~= ls);
        init.flatten().len() + i
    } else {
        assert(init.take(k) =~= ls.take(k));
        assert(init.take(k + 1) =~= ls.take(k + 1));
        assert(init[k] == ls[k]);
        lemma_flat_position(init, k, i)
    }
}

proof fn lemma_flat_grows(ls: Seq<Seq<Text>>, j: int, k: int)
    requires
        0 <= j <= k <= ls.len(),
    ensures
        ls.take(j).flatten().len() <= ls.take(k).flatten().len(),
    decreases k - j,
{
    if j < k {
        lemma_flat_grows(ls, j, k - 1);
        assert(ls.take(k) =~= ls.take(k - 1).push(ls[k - 1]));
        ls.take(k - 1).lemma_flatten_push(ls[k - 1]);
    }
}

proof fn lemma_flat_layer(ls: Seq<Seq<Text>>, q: int) -> (r: (int, int))
    requires
        0 <= q < ls.flatten().len(),
    ensures
        0 <= r.0 < ls.len(),
        0 <= r.1 < ls[r.0].len(),
        q == ls.take(r.0).flatten().len() + r.1,
        ls.flatten()[q] == ls[r.0][r.1],
    decreases ls.len(),
{
    if ls.len() == 0 {
        assert(ls.flatten() =~= Seq::<Text>::empty());
        (0, 0)
    } else {
        let init = ls.drop_last();
        assert(ls =~= init.push(ls.last()));
        init.lemma_flatten_push(ls.last());
        assert(ls.flatten() =~= init.flatten() + ls.last());
        if q < init.flatten().len() {
            let r = lemma_flat_layer(init, q);
            assert(init.take(r.0) =~= ls.take(r.0));
            assert(init[r.0] == ls[r.0]);
            r
        } else {
            assert(ls.take(ls.len() - 1) =~= init);
            (ls.len() - 1, q - init.flatten().len())
        }
    }
}

proof fn lemma_parents_of(es: Seq<(Text, Text)>, id: Text, f: Text)
    ensures
        parents_of(es, id).contains(f) <==> es.contains((f, id)),
    decreases es.len(),
{
    if es.len() > 0 {
        let rest = es.drop_last();
        let before = parents_of(rest, id);
        let out = parents_of(es, id);
        lemma_parents_of(rest, id, f);
        if es.contains((f, id)) {
            let i = choose|i: int| 0 <= i < es.len() && es[i] == (f, id);
            if i < rest.len() {
                assert(rest[i] == (f, id));
                let k = choose|k: int| 0 <= k < before.len() && before[k] == f;
                assert(out[k] == f);
            } else if before.contains(f) {
                let k = choose|k: int| 0 <= k < before.len() && before[k] == f;
                assert(out[k] == f);
            } else {
                assert(out[before.len() as int] == f);
            }
        }
        if out.contains(f) {
            let k = choose|k: int| 0 <= k < out.len() && out[k] == f;
            if k < before.len() {
                assert(before.contains(f));
                let i = choose|i: int| 0 <= i < rest.len() && rest[i] == (f, id);
                assert(es[i] == (f, id));
            } else {
                assert(es[es.len() - 1] == (f, id));
            }
        }
    }
}

/// In a plan, every parent of a node stands before the node.
proof fn lemma_parents_first(plan: RunPlan, ids: Seq<Text>, edges: Seq<(Text, Text)>, q: int, f: Text) -> (r: int)
    requires
        distinct(ids),
        !cyclic(ids, edges),
        is_plan(plan, ids, edges),
        0 <= q < nodes_of(plan).len(),
        parents_in(plan, nodes_of(plan)[q]).contains(f),
    ensures
        0 <= r < q,
        nodes_of(plan)[r] == f,
{
    let ls = layering(ids, edges);
    let id = nodes_of(plan)[q];
    law_every_node_placed_once(ids, edges);
    assert(ls.flatten().contains(id));
    assert(ls.flatten().to_set().contains(id));
    assert(ids.contains(id));
    assert(plan.parents@.dom().contains(id));
    assert(texts(plan.parents@[id]@) == parents_of(live(ids, edges), id));
    lemma_parents_of(live(ids, edges), id, f);
    let p = |e: (Text, Text)| ids.contains(e.0) && ids.contains(e.1);
    edges.lemma_filter_contains_rev(p, (f, id));
    let m = choose|m: int| 0 <= m < live(ids, edges).len() && live(ids, edges)[m] == (f, id);
    edges.lemma_filter_pred(p, m);
    let (k, i) = lemma_flat_layer(ls, q);
    assert(ls[k].contains(id));
    law_edges_lead_forward(ids, edges, k, (f, id));
    let j = choose|j: int| 0 <= j < k && (#[trigger] ls[j]).contains(f);
    let h = choose|h: int| 0 <= h < ls[j].len() && ls[j][h] == f;
    let pos = lemma_flat_position(ls, j, h);
    lemma_flat_grows(ls, j + 1, k);
    pos
}

proof fn lemma_written_off_prefix(plan: RunPlan, state: Map<Text, Text>, nodes: Seq<Text>, a: int, b: int, x: Text)
    requires
        0 <= a <= b <= nodes.len(),
        nodes.no_duplicates(),
    ensures
        written_off(plan, state, nodes.take(a)).contains(x) ==> written_off(plan, state, nodes.take(b)).contains(x),
        written_off(plan, state, nodes.take(b)).contains(x) && nodes.take(a).contains(x) ==> written_off(plan, state, nodes.take(a)).contains(x),
    decreases b - a,
{
    if a < b {
        lemma_written_off_prefix(plan, state, nodes, a, b - 1, x);
        let before = written_off(plan, state, nodes.take(b - 1));
        let out = written_off(plan, state, nodes.take(b));
        assert(nodes.take(b).drop_last() =~= nodes.take(b - 1));
        assert(nodes.take(b).last() == nodes[b - 1]);
        if before.contains(x) {
            let i = choose|i: int| 0 <= i < before.len() && before[i] == x;
            assert(out[i] == x);
        }
        if out.contains(x) && !before.contains(x) && nodes.take(a).contains(x) {
            let i = choose|i: int| 0 <= i < out.len() && out[i] == x;
            if i < before.len() {
                assert(before[i] == x);
            }
            assert(x == nodes[b - 1]);
            let c = choose|c: int| 0 <= c < nodes.take(a).len() && nodes.take(a)[c] == x;
            assert(nodes[c] == nodes[b - 1]);
        }
    }
}

/// The write-off reaches exactly the whole downstream cone in one call: in a plan, a node is
/// written off if and only if it is pending and one of its parents is written off or has failed,
/// been cancelled or been skipped.
pub proof fn law_skips_are_the_downstream_cone(plan: RunPlan, ids: Seq<Text>, edges: Seq<(Text, Text)>, state: Map<Text, Text>, id: Text)
    requires
        distinct(ids),
        !cyclic(ids, edges),
        is_plan(plan, ids, edges),
        ids.contains(id),
    ensures
        skips(plan, state).contains(id) <==> doomed(plan, state, skips(plan, state), id),
{
    law_every_node_placed_once(ids, edges);
    let nodes = nodes_of(plan);
    assert(nodes.to_set().contains(id));
    let q = choose|q: int| 0 <= q < nodes.len() && nodes[q] == id;
    let before = written_off(plan, state, nodes.take(q));
    let after = written_off(plan, state, nodes.take(q + 1));
    assert(nodes.take(q + 1).drop_last() =~= nodes.take(q));
    assert(nodes.take(q + 1).last() == id);
    assert(nodes.take(nodes.len() as int) =~= nodes);
    if skips(plan, state).contains(id) {
        assert(nodes.take(q + 1)[q] == id);
        lemma_written_off_prefix(plan, state, nodes, q + 1, nodes.len() as int, id);
        if before.contains(id) {
            lemma_written_off_pending(plan, state, nodes.take(q), id);
            let c = choose|c: int| 0 <= c < nodes.take(q).len() && nodes.take(q)[c] == id;
            assert(nodes[c] == nodes[q]);
        }
        assert(doomed(plan, state, before, id));
        let i = choose|i: int| 0 <= i < parents_in(plan, id).len() && (before.contains(#[trigger] parents_in(plan, id)[i])
            || blocking(status_of(state, parents_in(plan, id)[i])));
        lemma_written_off_prefix(plan, state, nodes, q, nodes.len() as int, parents_in(plan, id)[i]);
        assert(skips(plan, state).contains(parents_in(plan, id)[i]) || blocking(status_of(state, parents_in(plan, id)[i])));
    }
    if doomed(plan, state, skips(plan, state), id) {
        let i = choose|i: int| 0 <= i < parents_in(plan, id).len() && (skips(plan, state).contains(#[trigger] parents_in(plan, id)[i])
            || blocking(status_of(state, parents_in(plan, id)[i])));
        let f = parents_in(plan, id)[i];
        if skips(plan, state).contains(f) {
            let r = lemma_parents_first(plan, ids, edges, q, f);
            assert(nodes.take(q)[r] == f);
            lemma_written_off_prefix(plan, state, nodes, q, nodes.len() as int, f);
        }
        assert(before.contains(parents_in(plan, id)[i]) || blocking(status_of(state, parents_in(plan, id)[i])));
        assert(doomed(plan, state, before, id));
        assert(after == before.push(id));
        assert(after[before.len() as int] == id);
        lemma_written_off_prefix(plan, state, nodes, q + 1, nodes.len() as int, id);
    }
}

/// A run never stalls: while some node is pending and none is running, there is something to
/// start or to write off.
pub proof fn law_never_stalls(plan: RunPlan, ids: Seq<Text>, edges: Seq<(Text, Text)>, state: Map<Text, Text>, id: Text)
    requires
        distinct(ids),
        !cyclic(ids, edges),
        is_plan(plan, ids, edges),
        forall|x: Text| known_status(#[trigger] status_of(state, x)),
        ids.contains(id),
        status_of(state, id) == "pending"@,
        forall|x: Text| ids.contains(x) ==> #[trigger] status_of(state, x) != "running"@,
    ensures
        starts(plan, state).len() > 0 || skips(plan, state).len() > 0,
{
    law_every_node_placed_once(ids, edges);
    lemma_status_words();
    let nodes = nodes_of(plan);
    assert(nodes.to_set().contains(id));
    let q = choose|q: int| 0 <= q < nodes.len() && nodes[q] == id;
    lemma_first_pending(nodes, state, q);
    let m = choose|m: int| 0 <= m < nodes.len() && status_of(state, #[trigger] nodes[m]) == "pending"@
        && forall|j: int| 0 <= j < m ==> status_of(state, #[trigger] nodes[j]) != "pending"@;
    let x = nodes[m];
    assert(nodes.contains(x));
    assert(nodes.to_set().contains(x));
    assert(ids.contains(x));
    law_skips_are_the_downstream_cone(plan, ids, edges, state, x);
    if skips(plan, state).len() == 0 {
        assert(!skips(plan, state).contains(x));
        assert forall|i: int| 0 <= i < parents_in(plan, x).len() implies status_of(state, #[trigger] parents_in(plan, x)[i]) == "done"@ by {
            let f = parents_in(plan, x)[i];
            assert(parents_in(plan, x).contains(f));
            let r = lemma_parents_first(plan, ids, edges, m, f);
            assert(nodes[r] == f);
            assert(nodes.contains(f));
            assert(nodes.to_set().contains(f));
            assert(status_of(state, nodes[r]) != "pending"@);
            if blocking(status_of(state, f)) {
                assert(doomed(plan, state, skips(plan, state), x));
            }
        }
        let p = |y: Text| eligible(plan, state, y);
        assert(p(x));
        nodes.lemma_filter_contains(p, m);
        assert(startable(plan, state).contains(x));
        assert forall|i: int| 0 <= i < texts(plan.order@).len() implies status_of(state, #[trigger] texts(plan.order@)[i]) != "running"@ by {
            assert(nodes.contains(nodes[i]));
            assert(nodes.to_set().contains(nodes[i]));
            assert(ids.contains(nodes[i]));
        }
        lemma_none_running(texts(plan.order@), state);
    }
}

proof fn lemma_first_pending(nodes: Seq<Text>, state: Map<Text, Text>, q: int)
    requires
        0 <= q < nodes.len(),
        status_of(state, nodes[q]) == "pending"@,
    ensures
        exists|m: int| 0 <= m < nodes.len() && status_of(state, #[trigger] nodes[m]) == "pending"@
            && forall|j: int| 0 <= j < m ==> status_of(state, #[trigger] nodes[j]) != "pending"@,
    decreases q,
{
    if exists|j: int| 0 <= j < q && status_of(state, #[trigger] nodes[j]) == "pending"@ {
        let j = choose|j: int| 0 <= j < q && status_of(state, #[trigger] nodes[j]) == "pending"@;
        lemma_first_pending(nodes, state, j);
    }
}

proof fn lemma_none_running(order: Seq<Text>, state: Map<Text, Text>)
    requires
        forall|i: int| 0 <= i < order.len() ==> status_of(state, #[trigger] order[i]) != "running"@,
    ensures
        order.filter(|id: Text| status_of(state, id) == "running"@).len() == 0,
{
    let p = |id: Text| status_of(state, id) == "running"@;
    let out = order.filter(p);
    if out.len() > 0 {
        order.lemma_filter_pred(p, 0);
        order.lemma_filter_contains_rev(p, out[0]);
        assert(out.contains(out[0]));
        let i = choose|i: int| 0 <= i < order.len() && order[i] == out[0];
        assert(status_of(state, order[i]) != "running"@);
    }
}

/// A run is done only when every node is done or skipped, and never while one failed or was
/// cancelled.
pub proof fn law_done_means_nothing_failed(state: Map<Text, Text>, id: Text)
    requires
        derived_status(state) == "done"@,
        state.contains_key(id),
    ensures
        state[id] == "done"@ || state[id] == "skipped"@,
{
    lemma_status_words();
    let running_p = |s: Text| !terminal(s);
    let canceled_p = |s: Text| s == "canceled"@;
    let failed_p = |s: Text| s == "failed"@;
    reveal_strlit("done");
    reveal_strlit("running");
    if !terminal(state[id]) {
        assert(running_p(state[id]));
    }
    if state[id] == "canceled"@ {
        assert(canceled_p(state[id]));
    }
    if state[id] == "failed"@ {
        assert(failed_p(state[id]));
    }
}

}

//! Starting a run: the refusals that come before anything is written or spawned, and the run
//! that is registered when there is none.

use vstd::prelude::*;
use vstd::seq_lib::*;
use vstd::string::*;

use crate::flow::graph::{cyclic, distinct, law_every_node_placed_once, law_refused_iff_cyclic, layering, pairs, Text};
use crate::flow::ids::{log_name, log_text};
use crate::flow::run_plan::{is_plan, run_plan, RunPlan};
use crate::flow::runner::{EventView, FlowEvent};
use crate::flow::state::{consistent, has_node, NodeState, NodeView, RunState};
use crate::json::{as_text, part, part_of, text_of, Json, JsonView};
use crate::paths::{join_path, path_join};
use crate::strmap::StrMap;
use crate::text::{copy_texts, join2, join3, opt_text, same, texts};

verus! {

// ---- reading the flow ----

/// What a file that parsed as JSON turned out to be.
pub struct FlowShape {
    /// The document is an object whose `name` is a string that is not empty.
    pub named: bool,
    pub nodes_is_array: bool,
    pub edges_is_array: bool,
    /// The document reads as a flow.
    pub typed: bool,
}

/// The shape of a document: of its fields, `typed` says whether the whole reads as a flow.
pub open spec fn shape_of(doc: JsonView, typed: bool) -> FlowShape {
    FlowShape {
        named: as_text(part(doc, "name"@)) matches Some(name) && name.len() > 0,
        nodes_is_array: part(doc, "nodes"@) is Array,
        edges_is_array: part(doc, "edges"@) is Array,
        typed,
    }
}

fn has_array(doc: &Json, key: &str) -> (r: bool)
    ensures
        r == (part(doc.model(), key@) is Array),
{
    match part_of(doc, key) {
        Some(Json::Array(_)) => true,
        _ => false,
    }
}

/// What a document that parsed as JSON turned out to be.
pub fn flow_shape(doc: &Json, typed: bool) -> (r: FlowShape)
    ensures
        r == shape_of(doc.model(), typed),
{
    let named = match text_of(doc, "name") {
        Some(name) => !name.as_str().is_empty(),
        None => false,
    };
    FlowShape { named, nodes_is_array: has_array(doc, "nodes"), edges_is_array: has_array(doc, "edges"), typed }
}

/// What is known so far of a flow that is to start; each fact is found out only once the ones
/// before it are known and good.
pub struct StartFacts {
    pub can_open: Option<bool>,
    /// How reading the file went: the error, if there was one.
    pub read: Option<Option<String>>,
    /// Whether the file that was read really lies under the flow's root.
    pub confined: Option<bool>,
    /// How parsing it went: what it is, or the error.
    pub parsed: Option<Result<FlowShape, String>>,
}

/// What to do next.
pub enum StartStep {
    AskWhetherOpen,
    Read,
    Confine,
    Parse,
    Refuse(String),
    Plan,
}

pub enum StartStepView {
    AskWhetherOpen,
    Read,
    Confine,
    Parse,
    Refuse(Text),
    Plan,
}

impl View for StartStep {
    type V = StartStepView;

    open spec fn view(&self) -> StartStepView {
        match self {
            StartStep::AskWhetherOpen => StartStepView::AskWhetherOpen,
            StartStep::Read => StartStepView::Read,
            StartStep::Confine => StartStepView::Confine,
            StartStep::Parse => StartStepView::Parse,
            StartStep::Refuse(e) => StartStepView::Refuse(e@),
            StartStep::Plan => StartStepView::Plan,
        }
    }
}

pub open spec fn is_flow(s: FlowShape) -> bool {
    s.named && s.nodes_is_array && s.edges_is_array && s.typed
}

/// The first fact that is unknown is found out next; the first that is bad refuses the run.
pub open spec fn start_step(f: StartFacts) -> StartStepView {
    let outside = StartStepView::Refuse("flow is outside the open workspace folders"@);
    match (f.can_open, f.read, f.confined, f.parsed) {
        (None, _, _, _) => StartStepView::AskWhetherOpen,
        (Some(false), _, _, _) => outside,
        (_, None, _, _) => StartStepView::Read,
        (_, Some(Some(e)), _, _) => StartStepView::Refuse("could not read flow: "@ + e@),
        (_, _, None, _) => StartStepView::Confine,
        (_, _, Some(false), _) => outside,
        (_, _, _, None) => StartStepView::Parse,
        (_, _, _, Some(Err(e))) => StartStepView::Refuse("could not read flow: "@ + e@),
        (_, _, _, Some(Ok(shape))) => if is_flow(shape) { StartStepView::Plan } else { StartStepView::Refuse("not a flow file"@) },
    }
}

/// What to do next about a flow that is to start.
pub fn start_run(f: &StartFacts) -> (r: StartStep)
    ensures
        r@ == start_step(*f),
{
    match f.can_open {
        None => return StartStep::AskWhetherOpen,
        Some(false) => return StartStep::Refuse("flow is outside the open workspace folders".to_owned()),
        Some(true) => {},
    }
    match &f.read {
        None => return StartStep::Read,
        Some(Some(e)) => return StartStep::Refuse(join2("could not read flow: ", e)),
        Some(None) => {},
    }
    match f.confined {
        None => return StartStep::Confine,
        Some(false) => return StartStep::Refuse("flow is outside the open workspace folders".to_owned()),
        Some(true) => {},
    }
    match &f.parsed {
        None => StartStep::Parse,
        Some(Err(e)) => StartStep::Refuse(join2("could not read flow: ", e)),
        Some(Ok(shape)) => {
            if shape.named && shape.nodes_is_array && shape.edges_is_array && shape.typed {
                StartStep::Plan
            } else {
                StartStep::Refuse("not a flow file".to_owned())
            }
        },
    }
}

// ---- planning ----

pub struct FlowNode {
    pub id: String,
    /// The name the node is shown under.
    pub name: String,
    pub kind: String,
    pub model: Option<String>,
    /// The node's headless command line; none where its kind has no headless form.
    pub argv: Option<Vec<String>>,
}

pub struct FlowDoc {
    pub name: String,
    pub nodes: Vec<FlowNode>,
    pub edges: Vec<(String, String)>,
}

pub open spec fn node_ids(d: FlowDoc) -> Seq<Text> {
    d.nodes@.map_values(|n: FlowNode| n.id@)
}

/// The refusal of a flow with a node that cannot run in the background.
pub open spec fn no_headless_form(n: FlowNode) -> Text {
    "node \""@ + n.name@ + "\" ("@ + (if n.kind@.len() == 0 { "no kind"@ } else { n.kind@ })
        + ") can't run in the background — use Run in terminals"@
}

/// `i` is the position of the node `id` in the document.
pub open spec fn doc_index(d: FlowDoc, id: Text) -> int {
    choose|i: int| 0 <= i < d.nodes@.len() && (#[trigger] d.nodes@[i]).id@ == id
}

/// The node `id` of the document.
pub open spec fn doc_node(d: FlowDoc, id: Text) -> FlowNode {
    d.nodes@[doc_index(d, id)]
}

/// The first node in running order that has no headless form.
pub open spec fn first_unfit(d: FlowDoc, order: Seq<Text>, k: int) -> bool {
    &&& 0 <= k < order.len()
    &&& doc_node(d, order[k]).argv is None
    &&& forall|j: int| 0 <= j < k ==> doc_node(d, #[trigger] order[j]).argv is Some
}

proof fn lemma_doc_index(d: FlowDoc, i: int)
    requires
        distinct(node_ids(d)),
        0 <= i < d.nodes@.len(),
    ensures
        doc_index(d, d.nodes@[i].id@) == i,
        doc_node(d, d.nodes@[i].id@) == d.nodes@[i],
{
    let id = d.nodes@[i].id@;
    let j = doc_index(d, id);
    assert(d.nodes@[i].id@ == id);
    assert(node_ids(d)[i] == id && node_ids(d)[j] == id);
}

fn find_node(d: &FlowDoc, id: &str) -> (r: Option<usize>)
    requires
        distinct(node_ids(*d)),
    ensures
        match r {
            Some(i) => i < d.nodes@.len() && d.nodes@[i as int].id@ == id@ && doc_index(*d, id@) == i,
            None => !node_ids(*d).contains(id@),
        },
{
    let mut i: usize = 0;
    while i < d.nodes.len()
        invariant
            distinct(node_ids(*d)),
            i <= d.nodes@.len(),
            forall|j: int| 0 <= j < i ==> #[trigger] node_ids(*d)[j] != id@,
        decreases d.nodes@.len() - i,
    {
        if same(&d.nodes[i].id, id) {
            proof { lemma_doc_index(*d, i as int); }
            return Some(i);
        }
        i += 1;
    }
    None
}

fn id_list(d: &FlowDoc) -> (r: Vec<String>)
    ensures
        texts(r@) == node_ids(*d),
{
    let mut out: Vec<String> = Vec::new();
    let mut i: usize = 0;
    while i < d.nodes.len()
        invariant
            i <= d.nodes@.len(),
            out@.len() == i,
            forall|j: int| 0 <= j < i ==> #[trigger] out@[j]@ == d.nodes@[j].id@,
        decreases d.nodes@.len() - i,
    {
        out.push(d.nodes[i].id.clone());
        i += 1;
    }
    assert(texts(out@) =~= node_ids(*d));
    out
}

/// Whether no two nodes share an id.
pub fn ids_distinct(d: &FlowDoc) -> (r: bool)
    ensures
        r == distinct(node_ids(*d)),
{
    let mut i: usize = 0;
    while i < d.nodes.len()
        invariant
            i <= d.nodes@.len(),
            forall|a: int, b: int| 0 <= a < b < i ==> #[trigger] node_ids(*d)[a] != #[trigger] node_ids(*d)[b],
        decreases d.nodes@.len() - i,
    {
        let mut j: usize = 0;
        while j < i
            invariant
                j <= i < d.nodes@.len(),
                forall|a: int| 0 <= a < j ==> #[trigger] node_ids(*d)[a] != node_ids(*d)[i as int],
            decreases i - j,
        {
            if same(&d.nodes[j].id, &d.nodes[i].id) {
                assert(node_ids(*d)[j as int] == node_ids(*d)[i as int]);
                return false;
            }
            j += 1;
        }
        i += 1;
    }
    true
}

/// Plans a flow, or refuses it whole: its first structural error, an empty flow, a cycle, and a
/// node that cannot run in the background, in this order.
pub fn plan_flow(d: &FlowDoc, first_error: Option<&str>) -> (r: Result<RunPlan, String>)
    requires
        first_error is None ==> distinct(node_ids(*d)),
    ensures
        match first_error {
            Some(e) => r matches Err(m) && m@ == e@,
            None => {
                &&& d.nodes@.len() == 0 ==> (r matches Err(m) && m@ == "this flow has no nodes"@)
                &&& d.nodes@.len() > 0 && cyclic(node_ids(*d), pairs(d.edges@)) ==> (r matches Err(m) && m@ == "flow has a cycle — cannot run"@)
                &&& d.nodes@.len() > 0 && !cyclic(node_ids(*d), pairs(d.edges@)) ==> {
                    let order = layering(node_ids(*d), pairs(d.edges@)).flatten();
                    &&& r is Err <==> exists|k: int| #[trigger] first_unfit(*d, order, k)
                    &&& r matches Err(m) ==> forall|k: int| #[trigger] first_unfit(*d, order, k) ==> m@ == no_headless_form(doc_node(*d, order[k]))
                    &&& r matches Ok(plan) ==> is_plan(plan, node_ids(*d), pairs(d.edges@))
                }
            },
        },
{
    if let Some(e) = first_error {
        return Err(e.to_owned());
    }
    if d.nodes.len() == 0 {
        return Err("this flow has no nodes".to_owned());
    }
    let ids = id_list(d);
    proof {
        law_refused_iff_cyclic(node_ids(*d), pairs(d.edges@));
    }
    let plan = match run_plan(&ids, &d.edges) {
        Some(p) => p,
        None => return Err("flow has a cycle — cannot run".to_owned()),
    };
    let ghost order = layering(node_ids(*d), pairs(d.edges@)).flatten();
    proof { law_every_node_placed_once(node_ids(*d), pairs(d.edges@)); }
    let mut i: usize = 0;
    while i < plan.order.len()
        invariant
            i <= plan.order@.len(),
            distinct(node_ids(*d)),
            texts(plan.order@) == order,
            order.to_set() == node_ids(*d).to_set(),
            first_error is None,
            d.nodes@.len() > 0,
            !cyclic(node_ids(*d), pairs(d.edges@)),
            order == layering(node_ids(*d), pairs(d.edges@)).flatten(),
            is_plan(plan, node_ids(*d), pairs(d.edges@)),
            forall|j: int| 0 <= j < i ==> doc_node(*d, #[trigger] order[j]).argv is Some,
        decreases plan.order@.len() - i,
    {
        let ghost id = order[i as int];
        assert(plan.order@[i as int]@ == id);
        match find_node(d, &plan.order[i]) {
            Some(k) => {
                let n = &d.nodes[k];
                if n.argv.is_none() {
                    let kind = if n.kind.as_str().is_empty() { "no kind" } else { n.kind.as_str() };
                    let mut message = join3("node \"", &n.name, "\" (");
                    message.append(kind);
                    message.append(") can't run in the background — use Run in terminals");
                    proof {
                        assert(first_unfit(*d, order, i as int));
                        assert forall|k2: int| #[trigger] first_unfit(*d, order, k2) implies k2 == i by {
                            if k2 < i {
                                assert(doc_node(*d, order[k2]).argv is Some);
                            }
                            if i < k2 {
                                assert(doc_node(*d, order[i as int]).argv is Some);
                            }
                        }
                    }
                    return Err(message);
                }
            },
            None => {
                assert(order.contains(id));
                assert(order.to_set().contains(id));
                assert(node_ids(*d).to_set().contains(id));
            },
        }
        i += 1;
    }
    Ok(plan)
}

// ---- registering ----

/// The folder of a run.
pub open spec fn run_dir_text(root: Text, flow: Text, id: Text) -> Text {
    path_join(path_join(path_join(path_join(path_join(root, ".tome"@), "flows"@), flow), "runs"@), id)
}

/// The folder of a run.
pub fn run_dir(root: &str, flow: &str, id: &str) -> (r: String)
    ensures
        r@ == run_dir_text(root@, flow@, id@),
{
    let a = join_path(root, ".tome");
    let b = join_path(&a, "flows");
    let c = join_path(&b, flow);
    let e = join_path(&c, "runs");
    join_path(&e, id)
}

/// The answer when the run's folder lies outside the workspace, or could not be made.
pub fn run_dir_refused(error: Option<&str>) -> (r: String)
    ensures
        r@ == "could not create the run folder: "@ + match error {
            Some(e) => e@,
            None => "run folder escapes the workspace"@,
        },
{
    match error {
        Some(e) => join2("could not create the run folder: ", e),
        None => join2("could not create the run folder: ", "run folder escapes the workspace"),
    }
}

/// The `i`th node of a fresh run: waiting, with its own log.
pub open spec fn fresh_node(d: FlowDoc, dir: Text, id: Text, i: nat) -> NodeView {
    let n = doc_node(d, id);
    NodeView {
        id,
        name: n.name@,
        kind: n.kind@,
        model: opt_text(n.model),
        status: "pending"@,
        started: None,
        ended: None,
        exit: None,
        log: path_join(dir, log_text(id, i)),
        inner_argv: match n.argv {
            Some(argv) => texts(argv@),
            None => Seq::empty(),
        },
        pid: None,
        kill_timer: false,
    }
}

/// Registers a planned flow as a run: every node waiting, in running order.
pub fn new_run(d: &FlowDoc, plan: RunPlan, id: &str, root: &str, flow_path: &str, gapped: bool, now: &str) -> (r: RunState)
    requires
        distinct(node_ids(*d)),
        !cyclic(node_ids(*d), pairs(d.edges@)),
        is_plan(plan, node_ids(*d), pairs(d.edges@)),
        plan.order@.len() < usize::MAX,
    ensures
        consistent(r@),
        r.plan == plan,
        r.id@ == id@,
        r.flow@ == d.name@,
        r.flow_path@ == flow_path@,
        r.root@ == root@,
        r.gapped == gapped,
        r.status@ == "running"@,
        r.started@ == now@,
        r@.id == id@,
        r@.flow == d.name@,
        r@.flow_path == flow_path@,
        r@.root == root@,
        r@.dir == run_dir_text(root@, d.name@, id@),
        r@.gapped == gapped,
        r@.status == "running"@,
        r@.started == now@,
        r@.ended is None,
        !r@.canceling,
        r@.nodes == Seq::new(plan.order@.len(), |i: int| fresh_node(*d, r@.dir, texts(plan.order@)[i], i as nat)),
        forall|x: Text| #[trigger] r@.statuses.contains_key(x) <==> node_ids(*d).contains(x),
        forall|x: Text| r@.statuses.contains_key(x) ==> #[trigger] r@.statuses[x] == "pending"@,
{
    let dir = run_dir(root, &d.name, id);
    let ghost order = texts(plan.order@);
    proof { law_every_node_placed_once(node_ids(*d), pairs(d.edges@)); }
    let mut nodes: Vec<NodeState> = Vec::new();
    let mut statuses: StrMap<String> = StrMap::new();
    let mut i: usize = 0;
    while i < plan.order.len()
        invariant
            i <= plan.order@.len(),
            plan.order@.len() < usize::MAX,
            distinct(node_ids(*d)),
            order == texts(plan.order@),
            order.no_duplicates(),
            order.to_set() == node_ids(*d).to_set(),
            nodes@.len() == i,
            forall|j: int| 0 <= j < i ==> (#[trigger] nodes@[j])@ == fresh_node(*d, dir@, order[j], j as nat),
            forall|x: Text| #[trigger] statuses@.contains_key(x) <==> order.take(i as int).contains(x),
            forall|x: Text| statuses@.contains_key(x) ==> (#[trigger] statuses@[x])@ == "pending"@,
        decreases plan.order@.len() - i,
    {
        let node_id = &plan.order[i];
        let ghost x = order[i as int];
        proof {
            assert(x == node_id@);
            assert(order.contains(x));
            assert(order.to_set().contains(x));
            assert(node_ids(*d).to_set().contains(x));
        }
        let name = log_name(node_id, i);
        match find_node(d, node_id) {
            Some(k) => {
                let n = &d.nodes[k];
                let model = match &n.model {
                    Some(m) => Some(m.clone()),
                    None => None,
                };
                let argv = match &n.argv {
                    Some(a) => copy_texts(a),
                    None => Vec::new(),
                };
                assert(n.argv is None ==> texts(argv@) =~= Seq::<Text>::empty());
                let node = NodeState {
                    id: node_id.clone(),
                    name: n.name.clone(),
                    kind: n.kind.clone(),
                    model,
                    status: "pending".to_owned(),
                    started: None,
                    ended: None,
                    exit: None,
                    log: join_path(&dir, &name),
                    inner_argv: argv,
                    pid: None,
                    kill_timer: false,
                };
                assert(node@ =~= fresh_node(*d, dir@, x, i as nat));
                nodes.push(node);
            },
            None => {
                assert(false);
            },
        }
        let ghost kept = statuses@;
        statuses.set(node_id, "pending".to_owned());
        proof {
            let now = order.take(i as int);
            let then = order.take(i + 1);
            assert(then =~= now.push(x));
            assert forall|y: Text| #[trigger] statuses@.contains_key(y) <==> then.contains(y) by {
                if then.contains(y) && y != x {
                    let j = choose|j: int| 0 <= j < then.len() && then[j] == y;
                    assert(now[j] == y);
                }
                if now.contains(y) {
                    let j = choose|j: int| 0 <= j < now.len() && now[j] == y;
                    assert(then[j] == y);
                }
                assert(then[i as int] == x);
                assert(kept.contains_key(y) <==> now.contains(y));
            }
        }
        i += 1;
    }
    let run = RunState {
        id: id.to_owned(),
        flow: d.name.clone(),
        flow_path: flow_path.to_owned(),
        root: root.to_owned(),
        dir,
        gapped,
        status: "running".to_owned(),
        started: now.to_owned(),
        ended: None,
        canceling: false,
        plan,
        statuses,
        nodes,
    };
    proof {
        assert(order.take(order.len() as int) =~= order);
        let goal = Seq::new(order.len(), |i: int| fresh_node(*d, run@.dir, order[i], i as nat));
        assert forall|j: int| 0 <= j < order.len() implies #[trigger] run@.nodes[j] == goal[j] by {
            assert(run@.nodes[j] == run.nodes@[j]@);
        }
        assert(run@.nodes =~= goal);
        assert forall|a: int, b: int| 0 <= a < b < run@.nodes.len() implies (#[trigger] run@.nodes[a]).id != (#[trigger] run@.nodes[b]).id by {
            assert(order[a] != order[b]);
        }
        assert forall|a: int| 0 <= a < run@.nodes.len() implies run@.statuses.contains_key((#[trigger] run@.nodes[a]).id)
            && run@.statuses[run@.nodes[a].id] == run@.nodes[a].status by {
            assert(order.contains(order[a]));
            assert(run.statuses@.contains_key(order[a]));
        }
        assert forall|x: Text| run@.statuses.contains_key(x) implies #[trigger] has_node(run@.nodes, x) by {
            assert(run.statuses@.contains_key(x));
            assert(order.contains(x));
            let j = choose|j: int| 0 <= j < order.len() && order[j] == x;
            assert(run@.nodes[j].id == x);
        }
        assert(Seq::new(run@.nodes.len(), |i: int| run@.nodes[i].id) =~= order);
        assert forall|x: Text| #[trigger] run@.statuses.contains_key(x) <==> node_ids(*d).contains(x) by {
            assert(run.statuses@.contains_key(x) <==> order.contains(x));
            assert(order.contains(x) <==> order.to_set().contains(x));
            assert(node_ids(*d).contains(x) <==> node_ids(*d).to_set().contains(x));
        }
    }
    run
}

/// The event that a run started.
pub fn run_started(run: &RunState) -> (r: FlowEvent)
    ensures
        r@ == (EventView::RunStarted { run: run@.id, flow: run@.flow, nodes: run@.nodes.len() }),
{
    FlowEvent::RunStarted { run: run.id.clone(), flow: run.flow.clone(), nodes: run.nodes.len() }
}

/// A start is planned exactly where everything that was asked went well: the file may be opened, was
/// read, lies under its root, and holds a flow with a name and both lists.
pub proof fn law_only_good_files_are_planned(f: StartFacts)
    ensures
        start_step(f) is Plan <==> f.can_open == Some(true) && f.read == Some(None::<String>) && f.confined == Some(true) && f.parsed is Some
            && f.parsed->0 is Ok && f.parsed->0->Ok_0.named && f.parsed->0->Ok_0.nodes_is_array && f.parsed->0->Ok_0.edges_is_array
            && f.parsed->0->Ok_0.typed,
{
}

/// A start asks one thing at a time and touches nothing that it was not allowed to: it asks first,
/// reads only what may be opened, and parses only what lies under its root.
pub proof fn law_starts_ask_before_they_read(f: StartFacts)
    ensures
        f.can_open is None ==> start_step(f) is AskWhetherOpen,
        f.can_open == Some(true) && f.read is None ==> start_step(f) is Read,
        f.can_open == Some(true) && f.read == Some(None::<String>) && f.confined is None ==> start_step(f) is Confine,
        f.can_open == Some(true) && f.read == Some(None::<String>) && f.confined == Some(true) && f.parsed is None ==> start_step(f) is Parse,
        start_step(f) is Read ==> f.can_open == Some(true),
        start_step(f) is Parse ==> f.can_open == Some(true) && f.confined == Some(true),
{
}

/// A start that is refused says why: a file outside the open folders, a file that could not be read,
/// or one that is no flow.
pub proof fn law_refused_starts_say_why(f: StartFacts)
    ensures
        f.can_open == Some(false) ==> start_step(f) is Refuse && start_step(f)->Refuse_0 == "flow is outside the open workspace folders"@,
        f.can_open == Some(true) && f.read == Some(None::<String>) && f.confined == Some(false) ==> start_step(f) is Refuse
            && start_step(f)->Refuse_0 == "flow is outside the open workspace folders"@,
        f.can_open == Some(true) && f.read is Some && f.read->0 is Some ==> start_step(f) is Refuse && start_step(f)->Refuse_0
            == "could not read flow: "@ + f.read->0->0@,
        f.can_open == Some(true) && f.read == Some(None::<String>) && f.confined == Some(true) && f.parsed is Some && f.parsed->0 is Err
            ==> start_step(f) is Refuse && start_step(f)->Refuse_0 == "could not read flow: "@ + f.parsed->0->Err_0@,
{
}

/// A document is a flow by its own fields: a name that is not empty and two lists.
pub proof fn law_flows_are_named_and_hold_lists(doc: JsonView, typed: bool)
    ensures
        shape_of(doc, typed).named <==> part(doc, "name"@) is Text && part(doc, "name"@)->Text_0.len() > 0,
        shape_of(doc, typed).nodes_is_array <==> part(doc, "nodes"@) is Array,
        shape_of(doc, typed).edges_is_array <==> part(doc, "edges"@) is Array,
        shape_of(doc, typed).typed == typed,
{
}

}

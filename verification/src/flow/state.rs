//! The live state of background runs: one status per node, and every transition a run goes
//! through. Each function here is one transition; spawning, files and timers happen elsewhere
//! and hand their outcomes in.

use vstd::prelude::*;
use vstd::string::*;

use crate::flow::graph::{rows, Text};
use crate::flow::run_plan::{words, RunPlan};
use crate::strmap::StrMap;
use crate::text::{opt_text, same, texts};

verus! {

pub struct NodeState {
    pub id: String,
    pub name: String,
    pub kind: String,
    pub model: Option<String>,
    pub status: String,
    pub started: Option<String>,
    pub ended: Option<String>,
    pub exit: Option<i32>,
    pub log: String,
    /// The node's own command line, resolved once when the run was planned.
    pub inner_argv: Vec<String>,
    /// The live process, while there is one.
    pub pid: Option<i32>,
    /// Whether a kill timer is waiting on the process.
    pub kill_timer: bool,
}

pub struct RunState {
    pub id: String,
    pub flow: String,
    pub flow_path: String,
    pub root: String,
    pub dir: String,
    pub gapped: bool,
    pub status: String,
    pub started: String,
    pub ended: Option<String>,
    pub canceling: bool,
    pub plan: RunPlan,
    pub statuses: StrMap<String>,
    pub nodes: Vec<NodeState>,
}

/// A node by the views of its fields.
#[verifier::ext_equal]
pub struct NodeView {
    pub id: Text,
    pub name: Text,
    pub kind: Text,
    pub model: Option<Text>,
    pub status: Text,
    pub started: Option<Text>,
    pub ended: Option<Text>,
    pub exit: Option<i32>,
    pub log: Text,
    pub inner_argv: Seq<Text>,
    pub pid: Option<i32>,
    pub kill_timer: bool,
}

/// A run by the views of its fields.
#[verifier::ext_equal]
pub struct RunView {
    pub id: Text,
    pub flow: Text,
    pub flow_path: Text,
    pub root: Text,
    pub dir: Text,
    pub gapped: bool,
    pub status: Text,
    pub started: Text,
    pub ended: Option<Text>,
    pub canceling: bool,
    pub plan: RunPlan,
    pub statuses: Map<Text, Text>,
    pub nodes: Seq<NodeView>,
}

impl View for NodeState {
    type V = NodeView;

    open spec fn view(&self) -> NodeView {
        NodeView {
            id: self.id@,
            name: self.name@,
            kind: self.kind@,
            model: opt_text(self.model),
            status: self.status@,
            started: opt_text(self.started),
            ended: opt_text(self.ended),
            exit: self.exit,
            log: self.log@,
            inner_argv: texts(self.inner_argv@),
            pid: self.pid,
            kill_timer: self.kill_timer,
        }
    }
}

pub open spec fn node_views(v: Seq<NodeState>) -> Seq<NodeView> {
    v.map_values(|n: NodeState| n@)
}

impl View for RunState {
    type V = RunView;

    open spec fn view(&self) -> RunView {
        RunView {
            id: self.id@,
            flow: self.flow@,
            flow_path: self.flow_path@,
            root: self.root@,
            dir: self.dir@,
            gapped: self.gapped,
            status: self.status@,
            started: self.started@,
            ended: opt_text(self.ended),
            canceling: self.canceling,
            plan: self.plan,
            statuses: words(self.statuses@),
            nodes: node_views(self.nodes@),
        }
    }
}

/// `i` is the position of the node `id`.
pub open spec fn is_at(nodes: Seq<NodeView>, id: Text, i: int) -> bool {
    0 <= i < nodes.len() && nodes[i].id == id && forall|j: int| 0 <= j < i ==> (#[trigger] nodes[j]).id != id
}

pub open spec fn has_node(nodes: Seq<NodeView>, id: Text) -> bool {
    exists|i: int| 0 <= i < nodes.len() && (#[trigger] nodes[i]).id == id
}

pub open spec fn position(nodes: Seq<NodeView>, id: Text) -> int {
    choose|i: int| is_at(nodes, id, i)
}

/// A run whose status table and nodes agree: one node for each id of the plan, in its order,
/// each with the status that the table holds.
pub open spec fn consistent(r: RunView) -> bool {
    &&& forall|i: int, j: int| 0 <= i < j < r.nodes.len() ==> (#[trigger] r.nodes[i]).id != (#[trigger] r.nodes[j]).id
    &&& forall|i: int| 0 <= i < r.nodes.len() ==> r.statuses.contains_key((#[trigger] r.nodes[i]).id) && r.statuses[r.nodes[i].id] == r.nodes[i].status
    &&& forall|id: Text| r.statuses.contains_key(id) ==> #[trigger] has_node(r.nodes, id)
    &&& texts(r.plan.order@) == Seq::new(r.nodes.len(), |i: int| r.nodes[i].id)
    &&& rows(r.plan.layers@).flatten() == texts(r.plan.order@)
    &&& forall|i: int| 0 <= i < r.nodes.len() && (#[trigger] r.nodes[i]).started is None ==> r.nodes[i].ended is None
}

impl RunState {
    /// The position of the node `id`.
    pub fn find(&self, id: &str) -> (r: Option<usize>)
        ensures
            match r {
                Some(i) => is_at(self@.nodes, id@, i as int) && i < self.nodes@.len(),
                None => !has_node(self@.nodes, id@),
            },
    {
        let mut i: usize = 0;
        while i < self.nodes.len()
            invariant
                i <= self.nodes@.len(),
                forall|j: int| 0 <= j < i ==> (#[trigger] self@.nodes[j]).id != id@,
            decreases self.nodes@.len() - i,
        {
            assert(self@.nodes[i as int] == self.nodes@[i as int]@);
            if same(&self.nodes[i].id, id) {
                return Some(i);
            }
            i += 1;
        }
        None
    }
}

pub proof fn lemma_position(nodes: Seq<NodeView>, id: Text, i: int)
    requires
        is_at(nodes, id, i),
    ensures
        position(nodes, id) == i,
        has_node(nodes, id),
{
    let j = position(nodes, id);
    assert(is_at(nodes, id, j));
    if i < j {
        assert(nodes[i].id != id);
    }
    if j < i {
        assert(nodes[j].id != id);
    }
}

// ---- one transition of one node ----

/// A node with a new status: it starts when it starts running, and ends at any other status it
/// reaches after it started. An exit code, once there is one, is kept.
pub open spec fn mark_node(n: NodeView, status: Text, exit: Option<i32>, now: Text) -> NodeView {
    NodeView {
        status,
        started: if status == "running"@ { Some(now) } else { n.started },
        ended: if status != "running"@ && n.started is Some { Some(now) } else { n.ended },
        exit: if exit is Some { exit } else { n.exit },
        ..n
    }
}

/// The run with the node `id` marked; a run without such a node stays as it is.
pub open spec fn mark(r: RunView, id: Text, status: Text, exit: Option<i32>, now: Text) -> RunView {
    if has_node(r.nodes, id) {
        let i = position(r.nodes, id);
        RunView {
            nodes: r.nodes.update(i, mark_node(r.nodes[i], status, exit, now)),
            statuses: r.statuses.insert(id, status),
            ..r
        }
    } else {
        r
    }
}

impl RunState {
    /// Marks the node `id`; whether there is one.
    pub fn set_status(&mut self, id: &str, status: &str, exit: Option<i32>, now: &str) -> (r: bool)
        ensures
            r == has_node(old(self)@.nodes, id@),
            final(self)@ == mark(old(self)@, id@, status@, exit, now@),
    {
        match self.find(id) {
            None => false,
            Some(i) => {
                proof { lemma_position(self@.nodes, id@, i as int); }
                let ghost before = self@;
                let running = same(status, "running");
                self.nodes[i].status = status.to_owned();
                if running {
                    self.nodes[i].started = Some(now.to_owned());
                } else if self.nodes[i].started.is_some() {
                    self.nodes[i].ended = Some(now.to_owned());
                }
                if exit.is_some() {
                    self.nodes[i].exit = exit;
                }
                self.statuses.set(id, status.to_owned());
                proof {
                    let goal = mark(before, id@, status@, exit, now@);
                    assert(self@.nodes[i as int] =~= goal.nodes[i as int]);
                    assert(self@.nodes =~= goal.nodes);
                    assert(self@.statuses =~= goal.statuses);
                    assert(self@ =~= goal);
                }
                true
            },
        }
    }
}

}

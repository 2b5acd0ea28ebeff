//! One node's launch, from the environment it asks for to the exit of its process.

use vstd::prelude::*;
use vstd::string::*;

use crate::flow::graph::Text;
use crate::flow::run_plan::run_pane_id;
use crate::flow::runner::{change, node_event, shot_of, Transition};
use crate::flow::state::{has_node, lemma_position, mark, position, NodeView, RunState, RunView};
use crate::text::{copy_texts, decimal, decimal_u64, join2, join3, opt_text, texts};

verus! {

/// How a command line is put into a sandbox: a wrapper in front of it, or a whole command line
/// of its own that holds it already.
pub enum SandboxWrap {
    Prefix { cmd: String, args: Vec<String> },
    Full { argv: Vec<String> },
}

pub enum WrapView {
    Prefix { cmd: Text, args: Seq<Text> },
    Full { argv: Seq<Text> },
}

impl View for SandboxWrap {
    type V = WrapView;

    open spec fn view(&self) -> WrapView {
        match self {
            SandboxWrap::Prefix { cmd, args } => WrapView::Prefix { cmd: cmd@, args: texts(args@) },
            SandboxWrap::Full { argv } => WrapView::Full { argv: texts(argv@) },
        }
    }
}

/// A sandbox that may be missing.
pub open spec fn wrap_view(w: Option<SandboxWrap>) -> Option<WrapView> {
    match w {
        Some(s) => Some(s@),
        None => None,
    }
}

/// What the environment of a node is built from.
pub struct LaunchRequest {
    pub pane_id: String,
    pub gapped: bool,
    pub inner_argv: Vec<String>,
}

/// The node `id` of the run.
pub open spec fn node_of(r: RunView, id: Text) -> NodeView {
    r.nodes[position(r.nodes, id)]
}

/// The pane that stands for a node: its environment is asked for and closed under this id.
pub open spec fn pane_of(r: RunView, id: Text) -> Text {
    "run:"@ + r.id + ":"@ + id
}

/// The environment a node asks for: its own pane id, the run's gap, its own command line.
pub fn launch_request(run: &RunState, node_id: &str) -> (r: Option<LaunchRequest>)
    ensures
        r is Some <==> has_node(run@.nodes, node_id@),
        r matches Some(q) ==> {
            &&& q.pane_id@ == pane_of(run@, node_id@)
            &&& q.gapped == run@.gapped
            &&& texts(q.inner_argv@) == node_of(run@, node_id@).inner_argv
        },
{
    match run.find(node_id) {
        Some(i) => {
            proof { lemma_position(run@.nodes, node_id@, i as int); }
            Some(
                LaunchRequest {
                    pane_id: run_pane_id(&run.id, node_id),
                    gapped: run.gapped,
                    inner_argv: copy_texts(&run.nodes[i].inner_argv),
                },
            )
        },
        None => None,
    }
}

/// The command line with the sandbox around it.
pub open spec fn wrapped(inner: Seq<Text>, sandbox: Option<SandboxWrap>) -> Seq<Text> {
    match sandbox {
        None => inner,
        Some(SandboxWrap::Prefix { cmd, args }) => seq![cmd@] + texts(args@) + inner,
        Some(SandboxWrap::Full { argv }) => texts(argv@),
    }
}

/// The program to spawn and its arguments.
pub fn spawn_command(inner_argv: &Vec<String>, sandbox: &Option<SandboxWrap>) -> (r: (String, Vec<String>))
    requires
        wrapped(texts(inner_argv@), *sandbox).len() > 0,
    ensures
        seq![r.0@] + texts(r.1@) == wrapped(texts(inner_argv@), *sandbox),
{
    match sandbox {
        None => head_and_tail(inner_argv),
        Some(SandboxWrap::Full { argv }) => head_and_tail(argv),
        Some(SandboxWrap::Prefix { cmd, args }) => {
            let mut all = copy_texts(args);
            let mut inner = copy_texts(inner_argv);
            let ghost a = texts(all@);
            let ghost b = texts(inner@);
            all.append(&mut inner);
            assert(texts(all@) =~= a + b);
            assert(seq![cmd@] + (a + b) =~= seq![cmd@] + a + b);
            (cmd.clone(), all)
        },
    }
}

fn head_and_tail(argv: &Vec<String>) -> (r: (String, Vec<String>))
    requires
        argv@.len() > 0,
    ensures
        seq![r.0@] + texts(r.1@) == texts(argv@),
{
    let mut rest: Vec<String> = Vec::new();
    let mut i: usize = 1;
    while i < argv.len()
        invariant
            1 <= i <= argv@.len(),
            rest@.len() == i - 1,
            forall|j: int| 0 <= j < i - 1 ==> #[trigger] rest@[j]@ == argv@[j + 1]@,
        decreases argv@.len() - i,
    {
        rest.push(argv[i].clone());
        i += 1;
    }
    assert(seq![argv@[0]@] + texts(rest@) =~= texts(argv@));
    (argv[0].clone(), rest)
}

// ---- what a launch writes to its log ----

/// The first line of a node's log.
pub open spec fn header_text(n: NodeView) -> Text {
    let model = match n.model {
        Some(m) => " · "@ + m,
        None => Seq::empty(),
    };
    let started = match n.started {
        Some(s) => s,
        None => Seq::empty(),
    };
    "# "@ + n.name + " · "@ + n.kind + model + " · "@ + started + "\n"@
}

/// The last line of a node's log.
pub open spec fn trailer_text(code: Option<i32>, signal: Option<i32>) -> Text {
    match code {
        Some(c) => "# exit "@ + signed(c as int) + "\n"@,
        None => "# exit signal "@ + match signal {
            Some(s) => signed(s as int),
            None => "unknown"@,
        } + "\n"@,
    }
}

/// A number in base ten, with its sign when it is negative.
pub open spec fn signed(n: int) -> Text {
    if n < 0 {
        seq!['-'] + decimal((-n) as nat)
    } else {
        decimal(n as nat)
    }
}

pub fn signed_i32(n: i32) -> (r: String)
    ensures
        r@ == signed(n as int),
{
    if n < 0 {
        let magnitude = decimal_u64((-(n as i64)) as u64);
        let mut out = String::new();
        out.push('-');
        out.append(&magnitude);
        assert(out@ =~= signed(n as int));
        out
    } else {
        decimal_u64(n as u64)
    }
}

fn header(run: &RunState, i: usize) -> (r: String)
    requires
        i < run.nodes@.len(),
    ensures
        r@ == header_text(run@.nodes[i as int]),
{
    let n = &run.nodes[i];
    assert(run@.nodes[i as int] == n@);
    let mut out = "# ".to_owned();
    out.append(&n.name);
    out.append(" · ");
    out.append(&n.kind);
    match &n.model {
        Some(m) => {
            let ghost before = out@;
            out.append(" · ");
            out.append(m);
            assert(out@ =~= before + (" · "@ + m@));
        },
        None => {
            assert(out@ =~= out@ + Seq::<char>::empty());
        },
    }
    out.append(" · ");
    match &n.started {
        Some(s) => {
            out.append(s);
        },
        None => {
            assert(out@ =~= out@ + Seq::<char>::empty());
        },
    }
    out.append("\n");
    out
}

fn trailer(code: Option<i32>, signal: Option<i32>) -> (r: String)
    ensures
        r@ == trailer_text(code, signal),
{
    match code {
        Some(c) => {
            let n = signed_i32(c);
            join3("# exit ", &n, "\n")
        },
        None => {
            let what = match signal {
                Some(s) => signed_i32(s),
                None => "unknown".to_owned(),
            };
            join3("# exit signal ", &what, "\n")
        },
    }
}

// ---- the steps ----

/// How a launch ends: what to write to the node's log, the transition it made, and the pane whose
/// environment is closed. A launch ends once, and so does its environment.
pub struct Outcome {
    pub log: String,
    pub told: Option<Transition>,
    /// None where no environment came up.
    pub close: Option<String>,
}

/// `told` tells of the node `id` reaching `status`.
pub open spec fn tells(told: Option<Transition>, before: RunView, after: RunView, id: Text, status: Text, exit: Option<i32>) -> bool {
    &&& told is Some <==> has_node(before.nodes, id)
    &&& told matches Some(t) ==> t.event@ == node_event(before, id, status, exit) && t.snapshot@ == shot_of(after)
}

/// The environment could not be built: the node fails, and its log says why. There is nothing to
/// close.
pub fn environment_failed(run: &mut RunState, node_id: &str, message: &str, now: &str) -> (r: Outcome)
    ensures
        final(run)@ == mark(old(run)@, node_id@, "failed"@, None, now@),
        r.log@ == "# could not prepare the agent environment: "@ + message@ + "\n"@,
        r.close is None,
        tells(r.told, old(run)@, final(run)@, node_id@, "failed"@, None),
{
    let told = change(run, node_id, "failed", None, now);
    Outcome { log: join3("# could not prepare the agent environment: ", message, "\n"), told, close: None }
}

/// What to do once the environment is up.
pub enum EnvironmentReady {
    /// The launch is over: the run was cancelled in the meantime, or there is no such node.
    Over(Outcome),
    /// Spawn this, after the header went to the log.
    Spawn { cmd: String, args: Vec<String>, header: String },
}

/// The environment is up. A run that was cancelled while it came up spawns nothing: the node is
/// cancelled instead, and its environment is closed again.
pub fn environment_ready(run: &mut RunState, node_id: &str, sandbox: &Option<SandboxWrap>, now: &str) -> (r: EnvironmentReady)
    requires
        has_node(old(run)@.nodes, node_id@) && !old(run)@.canceling ==> wrapped(node_of(old(run)@, node_id@).inner_argv, *sandbox).len() > 0,
    ensures
        old(run)@.canceling ==> {
            &&& final(run)@ == mark(old(run)@, node_id@, "canceled"@, None, now@)
            &&& r matches EnvironmentReady::Over(o) && o.log@.len() == 0 && opt_text(o.close) == Some(pane_of(old(run)@, node_id@)) && tells(
                o.told,
                old(run)@,
                final(run)@,
                node_id@,
                "canceled"@,
                None,
            )
        },
        !old(run)@.canceling ==> {
            &&& final(run)@ == old(run)@
            &&& !has_node(old(run)@.nodes, node_id@) ==> (r matches EnvironmentReady::Over(o) && o.log@.len() == 0 && o.told is None && opt_text(
                o.close,
            ) == Some(pane_of(old(run)@, node_id@)))
            &&& has_node(old(run)@.nodes, node_id@) ==> r is Spawn
            &&& r matches EnvironmentReady::Spawn { cmd, args, header } ==> {
                &&& seq![cmd@] + texts(args@) == wrapped(node_of(old(run)@, node_id@).inner_argv, *sandbox)
                &&& header@ == header_text(node_of(old(run)@, node_id@))
            }
        },
{
    let pane = run_pane_id(&run.id, node_id);
    if run.canceling {
        let told = change(run, node_id, "canceled", None, now);
        return EnvironmentReady::Over(Outcome { log: String::new(), told, close: Some(pane) });
    }
    match run.find(node_id) {
        Some(i) => {
            proof { lemma_position(run@.nodes, node_id@, i as int); }
            let (cmd, args) = spawn_command(&run.nodes[i].inner_argv, sandbox);
            EnvironmentReady::Spawn { cmd, args, header: header(run, i) }
        },
        None => EnvironmentReady::Over(Outcome { log: String::new(), told: None, close: Some(pane) }),
    }
}

/// The log would lie outside the workspace: the node fails without one.
pub fn log_refused(run: &mut RunState, node_id: &str, now: &str) -> (r: Outcome)
    ensures
        final(run)@ == mark(old(run)@, node_id@, "failed"@, None, now@),
        r.log@.len() == 0,
        opt_text(r.close) == Some(pane_of(old(run)@, node_id@)),
        tells(r.told, old(run)@, final(run)@, node_id@, "failed"@, None),
{
    let pane = run_pane_id(&run.id, node_id);
    let told = change(run, node_id, "failed", None, now);
    Outcome { log: String::new(), told, close: Some(pane) }
}

/// The last look before the process is spawned: a run cancelled by now spawns nothing, its node
/// is cancelled, and the log says so. `None` when the spawn may go ahead.
pub fn stopped_before_spawn(run: &mut RunState, node_id: &str, now: &str) -> (r: Option<Outcome>)
    ensures
        r is Some <==> old(run)@.canceling,
        !old(run)@.canceling ==> final(run)@ == old(run)@,
        old(run)@.canceling ==> final(run)@ == mark(old(run)@, node_id@, "canceled"@, None, now@),
        r matches Some(o) ==> o.log@ == "# canceled before starting\n"@ && opt_text(o.close) == Some(pane_of(old(run)@, node_id@)) && tells(o.told, old(run)@, final(run)@, node_id@, "canceled"@, None),
{
    if run.canceling {
        let pane = run_pane_id(&run.id, node_id);
        let told = change(run, node_id, "canceled", None, now);
        Some(Outcome { log: "# canceled before starting\n".to_owned(), told, close: Some(pane) })
    } else {
        None
    }
}

/// The process could not be spawned: the node fails, and its log says why. A missing program is
/// named as such.
pub fn spawn_failed(run: &mut RunState, node_id: &str, not_found: bool, message: &str, now: &str) -> (r: Outcome)
    ensures
        final(run)@ == mark(old(run)@, node_id@, "failed"@, None, now@),
        r.log@ == "# failed to start: "@ + (if not_found { "ENOENT: "@ + message@ } else { message@ }) + "\n"@,
        opt_text(r.close) == Some(pane_of(old(run)@, node_id@)),
        tells(r.told, old(run)@, final(run)@, node_id@, "failed"@, None),
{
    let detail = if not_found { join2("ENOENT: ", message) } else { message.to_owned() };
    let pane = run_pane_id(&run.id, node_id);
    let told = change(run, node_id, "failed", None, now);
    Outcome { log: join3("# failed to start: ", &detail, "\n"), told, close: Some(pane) }
}

/// The run with the node's process set to `pid` and its kill timer to `timer`.
pub open spec fn with_process(r: RunView, id: Text, pid: Option<i32>, timer: bool) -> RunView {
    if has_node(r.nodes, id) {
        let i = position(r.nodes, id);
        RunView { nodes: r.nodes.update(i, NodeView { pid, kill_timer: timer, ..r.nodes[i] }), ..r }
    } else {
        r
    }
}

/// The process is up.
pub fn spawned(run: &mut RunState, node_id: &str, pid: i32)
    ensures
        final(run)@ == with_process(old(run)@, node_id@, Some(pid), node_of(old(run)@, node_id@).kill_timer),
{
    let ghost before = run@;
    match run.find(node_id) {
        Some(i) => {
            proof { lemma_position(run@.nodes, node_id@, i as int); }
            run.nodes[i].pid = Some(pid);
            proof {
                let goal = with_process(before, node_id@, Some(pid), node_of(before, node_id@).kill_timer);
                assert(run@.nodes =~= goal.nodes);
                assert(run@ =~= goal);
            }
        },
        None => {},
    }
}

/// The status a node ends with: cancelled beats failed, since a process that was killed exits
/// as if it had failed.
pub open spec fn exit_status(canceling: bool, code: Option<i32>) -> Text {
    if canceling {
        "canceled"@
    } else if code == Some(0i32) {
        "done"@
    } else {
        "failed"@
    }
}

/// The run after the process of the node `id` exited.
pub open spec fn after_exit(r: RunView, id: Text, code: Option<i32>, now: Text) -> RunView {
    mark(with_process(r, id, None, false), id, exit_status(r.canceling, code), code, now)
}

/// The process exited: its kill timer is off, the log is closed with how it ended, the node is
/// done, failed or cancelled, and its environment is closed.
pub fn exited(run: &mut RunState, node_id: &str, code: Option<i32>, signal: Option<i32>, now: &str) -> (r: Outcome)
    ensures
        final(run)@ == after_exit(old(run)@, node_id@, code, now@),
        r.log@ == trailer_text(code, signal),
        opt_text(r.close) == Some(pane_of(old(run)@, node_id@)),
        r.told is Some <==> has_node(old(run)@.nodes, node_id@),
        r.told matches Some(t) ==> t.event@ == node_event(old(run)@, node_id@, exit_status(old(run)@.canceling, code), code) && t.snapshot@
            == shot_of(final(run)@),
{
    let ghost before = run@;
    let pane = run_pane_id(&run.id, node_id);
    match run.find(node_id) {
        Some(i) => {
            proof { lemma_position(run@.nodes, node_id@, i as int); }
            run.nodes[i].pid = None;
            run.nodes[i].kill_timer = false;
            proof {
                let goal = with_process(before, node_id@, None, false);
                assert(run@.nodes =~= goal.nodes);
                assert(run@ =~= goal);
                assert(crate::flow::state::is_at(run@.nodes, node_id@, i as int));
                lemma_position(run@.nodes, node_id@, i as int);
            }
        },
        None => {},
    }
    let done = match code {
        Some(c) => c == 0,
        None => false,
    };
    let status = if run.canceling { "canceled" } else if done { "done" } else { "failed" };
    let told = change(run, node_id, status, code, now);
    Outcome { log: trailer(code, signal), told, close: Some(pane) }
}

// ---- laws ----

/// Nothing that happens to a run between the launch of a node and its end changes the pane that
/// stands for the node: what is closed is what was opened.
pub proof fn law_launches_close_what_they_opened(r: RunView, other: Text, status: Text, exit: Option<i32>, pid: i32, code: Option<i32>, now: Text, id: Text)
    ensures
        pane_of(mark(r, other, status, exit, now), id) == pane_of(r, id),
        pane_of(with_process(r, other, Some(pid), node_of(r, other).kill_timer), id) == pane_of(r, id),
        pane_of(after_exit(r, other, code, now), id) == pane_of(r, id),
{
}

/// No two nodes of a run share a pane: closing the environment of one never closes another's.
pub proof fn law_nodes_have_panes_of_their_own(r: RunView, a: Text, b: Text)
    requires
        a != b,
    ensures
        pane_of(r, a) != pane_of(r, b),
{
    let front = "run:"@ + r.id + ":"@;
    if pane_of(r, a) == pane_of(r, b) {
        assert((front + a).skip(front.len() as int) =~= a);
        assert((front + b).skip(front.len() as int) =~= b);
    }
}

/// A log begins with its node: the first line names the node and its kind right behind the mark, and
/// ends with the time at which the node started.
pub proof fn law_logs_begin_with_their_node(n: NodeView)
    ensures
        ({
            let h = header_text(n);
            let a: int = 2 + n.name.len() as int;
            let b: int = a + 3 + n.kind.len() as int;
            &&& h.len() >= b
            &&& h.subrange(2, a) == n.name
            &&& h.subrange(a + 3, b) == n.kind
            &&& h.last() == '\n'
            &&& n.started matches Some(at) ==> at.len() < h.len() && h.subrange(h.len() - 1 - at.len(), h.len() - 1) == at
            &&& n.model matches Some(m) ==> h.subrange(b + 3, b + 3 + m.len()) == m
        }),
{
    reveal_strlit("# ");
    reveal_strlit(" · ");
    reveal_strlit("\n");
    let h = header_text(n);
    let a: int = 2 + n.name.len() as int;
    let b: int = a + 3 + n.kind.len() as int;
    assert(h.subrange(2, a) =~= n.name);
    assert(h.subrange(a + 3, b) =~= n.kind);
    if n.started is Some {
        let at = n.started->0;
        assert(h.subrange(h.len() - 1 - at.len(), h.len() - 1) =~= at);
    }
    if n.model is Some {
        let m = n.model->0;
        assert(h.subrange(b + 3, b + 3 + m.len()) =~= m);
    }
}

/// A log ends with how its node ended: the last line shows the exit code, the signal where there is
/// no code, and says that it is unknown where there is neither.
pub proof fn law_logs_end_with_the_exit(code: Option<i32>, signal: Option<i32>)
    ensures
        code matches Some(c) ==> trailer_text(code, signal) == "# exit "@ + signed(c as int) + "\n"@,
        code is None && signal is Some ==> trailer_text(code, signal) == "# exit signal "@ + signed(signal->0 as int) + "\n"@,
        code is None && signal is None ==> trailer_text(code, signal) == "# exit signal unknown\n"@,
{
    reveal_strlit("# exit signal ");
    reveal_strlit("unknown");
    reveal_strlit("\n");
    reveal_strlit("# exit signal unknown\n");
    if code is None && signal is None {
        assert(trailer_text(code, signal) =~= "# exit signal unknown\n"@);
    }
}

}

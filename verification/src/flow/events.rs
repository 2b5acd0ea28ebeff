//! What the event log is told of a run.

use vstd::prelude::*;
use vstd::string::*;

use crate::flow::graph::Text;
use crate::flow::launch::{signed, signed_i32};
use crate::flow::runner::{EventView, FlowEvent};
use crate::json::{entries, Json, JsonView};
use crate::text::{decimal, decimal_u64};

verus! {

/// The fields of an event: what kind it is, the run and its flow, then what is its own. An exit
/// code is told only where there is one.
pub open spec fn event_entry(e: EventView) -> Seq<(Text, JsonView)> {
    match e {
        EventView::RunStarted { run, flow, nodes } => seq![
            ("event"@, JsonView::Text("run"@)),
            ("run"@, JsonView::Text(run)),
            ("flow"@, JsonView::Text(flow)),
            ("status"@, JsonView::Text("running"@)),
            ("nodes"@, JsonView::Number(decimal(nodes))),
        ],
        EventView::NodeChanged { run, flow, node, agent, status, exit } => {
            let base = seq![
                ("event"@, JsonView::Text("node"@)),
                ("run"@, JsonView::Text(run)),
                ("flow"@, JsonView::Text(flow)),
                ("node"@, JsonView::Text(node)),
                ("agent"@, JsonView::Text(agent)),
                ("status"@, JsonView::Text(status)),
            ];
            match exit {
                Some(c) => base.push(("exit"@, JsonView::Number(signed(c as int)))),
                None => base,
            }
        },
        EventView::RunEnded { run, flow, status } => seq![
            ("event"@, JsonView::Text("run"@)),
            ("run"@, JsonView::Text(run)),
            ("flow"@, JsonView::Text(flow)),
            ("status"@, JsonView::Text(status)),
        ],
        EventView::Canceled { run, flow } => seq![
            ("event"@, JsonView::Text("cancel"@)),
            ("run"@, JsonView::Text(run)),
            ("flow"@, JsonView::Text(flow)),
        ],
    }
}

fn tell(out: &mut Vec<(String, Json)>, key: &str, value: &str)
    ensures
        entries(final(out)@) == entries(old(out)@).push((key@, JsonView::Text(value@))),
{
    let ghost before = entries(out@);
    out.push((key.to_owned(), Json::Text(value.to_owned())));
    assert(entries(out@) =~= before.push((key@, JsonView::Text(value@))));
}

fn count(out: &mut Vec<(String, Json)>, key: &str, digits: String)
    ensures
        entries(final(out)@) == entries(old(out)@).push((key@, JsonView::Number(digits@))),
{
    let ghost before = entries(out@);
    let ghost shown = digits@;
    out.push((key.to_owned(), Json::Number(digits)));
    assert(entries(out@) =~= before.push((key@, JsonView::Number(shown))));
}

/// The fields of an event, in order.
pub fn event_fields(e: &FlowEvent) -> (r: Vec<(String, Json)>)
    ensures
        entries(r@) == event_entry(e@),
{
    let mut out: Vec<(String, Json)> = Vec::new();
    assert(entries(out@) =~= Seq::<(Text, JsonView)>::empty());
    match e {
        FlowEvent::RunStarted { run, flow, nodes } => {
            tell(&mut out, "event", "run");
            tell(&mut out, "run", run);
            tell(&mut out, "flow", flow);
            tell(&mut out, "status", "running");
            count(&mut out, "nodes", decimal_u64(*nodes as u64));
        },
        FlowEvent::NodeChanged { run, flow, node, agent, status, exit } => {
            tell(&mut out, "event", "node");
            tell(&mut out, "run", run);
            tell(&mut out, "flow", flow);
            tell(&mut out, "node", node);
            tell(&mut out, "agent", agent);
            tell(&mut out, "status", status);
            if let Some(c) = exit {
                count(&mut out, "exit", signed_i32(*c));
            }
        },
        FlowEvent::RunEnded { run, flow, status } => {
            tell(&mut out, "event", "run");
            tell(&mut out, "run", run);
            tell(&mut out, "flow", flow);
            tell(&mut out, "status", status);
        },
        FlowEvent::Canceled { run, flow } => {
            tell(&mut out, "event", "cancel");
            tell(&mut out, "run", run);
            tell(&mut out, "flow", flow);
        },
    }
    assert(entries(out@) =~= event_entry(e@));
    out
}

/// Every event says of which run of which flow it is, and one of a node names the node, its agent
/// and the status it reached.
pub proof fn law_entries_say_what_happened(e: EventView)
    ensures
        e matches EventView::RunStarted { run, flow, nodes } ==> {
            &&& event_entry(e).contains(("run"@, JsonView::Text(run)))
            &&& event_entry(e).contains(("flow"@, JsonView::Text(flow)))
            &&& event_entry(e).contains(("status"@, JsonView::Text("running"@)))
            &&& event_entry(e).contains(("nodes"@, JsonView::Number(decimal(nodes))))
            &&& event_entry(e)[0] == ("event"@, JsonView::Text("run"@))
            &&& event_entry(e).len() == 5
        },
        e matches EventView::NodeChanged { run, flow, node, agent, status, exit } ==> {
            &&& event_entry(e).contains(("run"@, JsonView::Text(run)))
            &&& event_entry(e).contains(("flow"@, JsonView::Text(flow)))
            &&& event_entry(e).contains(("node"@, JsonView::Text(node)))
            &&& event_entry(e).contains(("agent"@, JsonView::Text(agent)))
            &&& event_entry(e).contains(("status"@, JsonView::Text(status)))
            &&& exit is None ==> event_entry(e).len() == 6
            &&& exit matches Some(c) ==> event_entry(e).len() == 7 && event_entry(e).last() == (
                "exit"@,
                JsonView::Number(signed(c as int)),
            )
            &&& event_entry(e)[0] == ("event"@, JsonView::Text("node"@))
        },
        e matches EventView::RunEnded { run, flow, status } ==> {
            &&& event_entry(e).contains(("run"@, JsonView::Text(run)))
            &&& event_entry(e).contains(("flow"@, JsonView::Text(flow)))
            &&& event_entry(e).contains(("status"@, JsonView::Text(status)))
            &&& event_entry(e)[0] == ("event"@, JsonView::Text("run"@))
            &&& event_entry(e).len() == 4
        },
        e matches EventView::Canceled { run, flow } ==> {
            &&& event_entry(e).contains(("run"@, JsonView::Text(run)))
            &&& event_entry(e).contains(("flow"@, JsonView::Text(flow)))
            &&& event_entry(e)[0] == ("event"@, JsonView::Text("cancel"@))
            &&& event_entry(e).len() == 3
        },
{
    let o = event_entry(e);
    match e {
        EventView::RunStarted { run, flow, nodes } => {
            assert(o[1] == ("run"@, JsonView::Text(run)) && o[2] == ("flow"@, JsonView::Text(flow)));
            assert(o[3] == ("status"@, JsonView::Text("running"@)) && o[4] == ("nodes"@, JsonView::Number(decimal(nodes))));
        },
        EventView::NodeChanged { run, flow, node, agent, status, exit } => {
            assert(o[1] == ("run"@, JsonView::Text(run)) && o[2] == ("flow"@, JsonView::Text(flow)));
            assert(o[3] == ("node"@, JsonView::Text(node)) && o[4] == ("agent"@, JsonView::Text(agent)));
            assert(o[5] == ("status"@, JsonView::Text(status)));
        },
        EventView::RunEnded { run, flow, status } => {
            assert(o[1] == ("run"@, JsonView::Text(run)) && o[2] == ("flow"@, JsonView::Text(flow)));
            assert(o[3] == ("status"@, JsonView::Text(status)));
        },
        EventView::Canceled { run, flow } => {
            assert(o[1] == ("run"@, JsonView::Text(run)) && o[2] == ("flow"@, JsonView::Text(flow)));
        },
    }
}

}

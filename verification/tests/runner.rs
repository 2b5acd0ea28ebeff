use tome::flow::confine::{confine_real_abs, probes};
use tome::flow::env::{build_production_agent_env, built_env, frozen_airgap_default, BuiltEnv, EnvFacts, EnvStep, GapDefault};
use tome::flow::events::event_fields;
use tome::flow::ids::{first_free, log_name, new_run_id, to_base36};
use tome::flow::launch::{
    environment_failed, environment_ready, exited, launch_request, log_refused, signed_i32, spawn_command, spawn_failed, spawned,
    stopped_before_spawn, EnvironmentReady, SandboxWrap,
};
use tome::flow::runner::{
    cancel, cancel_run, find_run, kill_all, kill_target, must_pump_again, pump, run_snapshot, settle_if_done, snapshot_all,
    CancelReply, FlowEvent, Runner, Transition,
};
use tome::flow::start::{
    flow_shape, ids_distinct, new_run, start_run, plan_flow, run_dir, run_dir_refused, run_started, FlowDoc, FlowNode, FlowShape,
    StartFacts, StartStep,
};
use tome::flow::state::RunState;
use tome::json::{lookup, Json};
use tome::pty::{HostOs, SandboxStrategy};
use tome::schedules::SCHEDULED_RUN_AIRGAP;
use tome::strmap::StrMap;

const NOW: &str = "2026-01-02T03:04:05.006Z";
const LATER: &str = "2026-01-02T03:05:05.006Z";

fn list(v: &[&str]) -> Vec<String> {
    v.iter().map(|s| s.to_string()).collect()
}

fn doc(name: &str, ids: &[&str], pairs: &[(&str, &str)]) -> FlowDoc {
    FlowDoc {
        name: name.to_string(),
        nodes: ids
            .iter()
            .map(|id| FlowNode {
                id: id.to_string(),
                name: id.to_string(),
                kind: "codex".to_string(),
                model: None,
                argv: Some(list(&["codex", "-p", id])),
            })
            .collect(),
        edges: pairs.iter().map(|(a, b)| (a.to_string(), b.to_string())).collect(),
    }
}

fn run_of(id: &str, ids: &[&str], pairs: &[(&str, &str)], gapped: bool) -> RunState {
    let d = doc("pipeline", ids, pairs);
    assert!(ids_distinct(&d));
    let plan = match plan_flow(&d, None) {
        Ok(p) => p,
        Err(e) => panic!("refused: {e}"),
    };
    new_run(&d, plan, id, "/ws", "/ws/.tome/flows/pipeline.flow.json", gapped, NOW)
}

fn statuses(run: &RunState) -> Vec<(String, String)> {
    run.nodes.iter().map(|n| (n.id.clone(), n.status.clone())).collect()
}

fn status_of(run: &RunState, id: &str) -> String {
    run.nodes[run.find(id).unwrap()].status.clone()
}

fn told_status(t: &Transition) -> String {
    match &t.event {
        FlowEvent::NodeChanged { node, status, .. } => format!("{node}:{status}"),
        FlowEvent::RunEnded { status, .. } => format!("run:{status}"),
        FlowEvent::RunStarted { .. } => "run:started".to_string(),
        FlowEvent::Canceled { .. } => "run:cancelling".to_string(),
    }
}

// ---- refusals before anything is spawned or written ----

fn facts() -> StartFacts {
    StartFacts { can_open: None, read: None, confined: None, parsed: None }
}

fn refused(f: &StartFacts) -> String {
    match start_run(f) {
        StartStep::Refuse(e) => e,
        _ => panic!("the flow should have been refused"),
    }
}

#[test]
fn refuses_a_path_outside_the_open_workspace_folders() {
    let mut f = facts();
    assert!(matches!(start_run(&f), StartStep::AskWhetherOpen));
    f.can_open = Some(false);
    assert_eq!(refused(&f), "flow is outside the open workspace folders");
}

#[test]
fn refuses_a_file_that_is_not_a_flow() {
    let mut f = facts();
    f.can_open = Some(true);
    assert!(matches!(start_run(&f), StartStep::Read));
    f.read = Some(Some("No such file".to_string()));
    assert_eq!(refused(&f), "could not read flow: No such file");
    f.read = Some(None);
    assert!(matches!(start_run(&f), StartStep::Confine));
    f.confined = Some(true);
    assert!(matches!(start_run(&f), StartStep::Parse));
    f.parsed = Some(Err("expected value".to_string()));
    assert_eq!(refused(&f), "could not read flow: expected value");
    f.parsed = Some(Ok(FlowShape { named: true, nodes_is_array: false, edges_is_array: false, typed: false }));
    assert_eq!(refused(&f), "not a flow file");
    f.parsed = Some(Ok(FlowShape { named: false, nodes_is_array: true, edges_is_array: true, typed: true }));
    assert_eq!(refused(&f), "not a flow file");
    f.parsed = Some(Ok(FlowShape { named: true, nodes_is_array: true, edges_is_array: true, typed: true }));
    assert!(matches!(start_run(&f), StartStep::Plan));
}

#[test]
fn a_document_is_taken_for_a_flow_by_its_fields() {
    let field = |k: &str, v: Json| (k.to_string(), v);
    let name = || field("name", Json::Text("pipeline".to_string()));
    let empty = |k: &str| field(k, Json::Array(vec![]));
    let shape = flow_shape(&Json::Object(vec![name(), empty("nodes"), empty("edges")]), true);
    assert!(shape.named && shape.nodes_is_array && shape.edges_is_array && shape.typed);
    let shape = flow_shape(&Json::Object(vec![field("name", Json::Text(String::new())), empty("nodes")]), false);
    assert!(!shape.named && shape.nodes_is_array && !shape.edges_is_array && !shape.typed);
    let shape = flow_shape(&Json::Object(vec![field("name", Json::Bool(true)), field("edges", Json::Object(vec![]))]), true);
    assert!(!shape.named && !shape.nodes_is_array && !shape.edges_is_array);
    assert!(!flow_shape(&Json::Array(vec![]), true).named);
}

#[test]
fn refuses_a_flow_reached_through_a_symlinked_tome_flows_directory() {
    let mut f = facts();
    f.can_open = Some(true);
    f.read = Some(None);
    f.confined = Some(false);
    assert_eq!(refused(&f), "flow is outside the open workspace folders");
}

fn plan_error(d: &FlowDoc, first: Option<&str>) -> String {
    match plan_flow(d, first) {
        Err(e) => e,
        Ok(_) => panic!("the flow should have been refused"),
    }
}

#[test]
fn refuses_an_empty_flow_and_a_cyclic_one() {
    assert_eq!(plan_error(&doc("empty", &[], &[]), None), "this flow has no nodes");
    let cyclic = doc("cyclic", &["n1", "n2"], &[("n1", "n2"), ("n2", "n1")]);
    assert_eq!(plan_error(&cyclic, None), "flow has a cycle — cannot run");
}

#[test]
fn refuses_a_structurally_broken_graph_rather_than_running_the_good_half() {
    let d = doc("dangling", &["n1"], &[("n1", "ghost")]);
    assert_eq!(plan_error(&d, Some("edge e1 names a missing node")), "edge e1 names a missing node");
    let twice = doc("twice", &["n1", "n1"], &[]);
    assert!(!ids_distinct(&twice));
    assert_eq!(plan_error(&twice, Some("duplicate node id")), "duplicate node id");
}

#[test]
fn refuses_the_whole_run_naming_the_node_with_no_headless_template() {
    let mut d = doc("mixed", &["n1", "n2"], &[("n1", "n2")]);
    d.nodes[1].kind = "opencode".to_string();
    d.nodes[1].name = "Summarizer".to_string();
    d.nodes[1].argv = None;
    assert_eq!(plan_error(&d, None), "node \"Summarizer\" (opencode) can't run in the background — use Run in terminals");
    d.nodes[1].kind = String::new();
    assert!(plan_error(&d, None).contains("(no kind)"));
}

#[test]
fn refuses_to_create_a_run_directory_through_a_pre_existing_symlinked_ancestor() {
    let dir = run_dir("/ws", "planted", "abc");
    assert_eq!(dir, "/ws/.tome/flows/planted/runs/abc");
    let disk = |path: &str| match path {
        "/ws/.tome/flows/planted" => Some("/outside"),
        "/ws/.tome/flows" | "/ws/.tome" | "/ws" | "/" => Some("/ws"),
        _ => None,
    };
    let place = probes(&dir, false).iter().find_map(|p| disk(p));
    assert_eq!(place, Some("/outside"));
    assert_eq!(confine_real_abs("/ws", &dir, disk("/ws"), place), None);
    let plain = run_dir("/ws", "other", "abc");
    let found = probes(&plain, false).iter().find_map(|p| disk(p));
    assert_eq!(confine_real_abs("/ws", &plain, disk("/ws"), found), Some(plain.clone()));
    assert_eq!(run_dir_refused(None), "could not create the run folder: run folder escapes the workspace");
    assert_eq!(run_dir_refused(Some("denied")), "could not create the run folder: denied");
}

// ---- what is spawned ----

#[test]
fn a_fresh_run_waits_with_a_log_for_every_node() {
    let run = run_of("r1", &["n1", "n2"], &[("n1", "n2")], true);
    assert_eq!(run.dir, "/ws/.tome/flows/pipeline/runs/r1");
    assert_eq!(run.status, "running");
    assert!(run.ended.is_none() && !run.canceling && run.gapped);
    assert!(run.nodes.iter().all(|n| n.status == "pending" && n.pid.is_none()));
    assert_eq!(run.nodes[0].inner_argv, list(&["codex", "-p", "n1"]));
    assert_ne!(run.nodes[0].log, run.nodes[1].log);
    assert!(matches!(run_started(&run), FlowEvent::RunStarted { nodes: 2, .. }));
}

#[test]
fn gives_every_node_its_own_air_gap_pane_id_and_closes_it_when_the_node_exits() {
    let mut run = run_of("r1", &["n1", "n2"], &[], true);
    let q = launch_request(&run, "n2").unwrap();
    assert_eq!(q.pane_id, "run:r1:n2");
    assert!(q.gapped);
    assert_eq!(q.inner_argv, list(&["codex", "-p", "n2"]));
    assert!(launch_request(&run, "ghost").is_none());
    pump(&mut run, NOW);
    let mut closed = vec![];
    for (node, pid) in [("n1", 41), ("n2", 42)] {
        assert!(matches!(environment_ready(&mut run, node, &None, NOW), EnvironmentReady::Spawn { .. }));
        assert!(stopped_before_spawn(&mut run, node, NOW).is_none());
        spawned(&mut run, node, pid);
    }
    for node in ["n2", "n1"] {
        closed.extend(exited(&mut run, node, Some(0), None, NOW).close);
    }
    assert_eq!(closed, list(&["run:r1:n2", "run:r1:n1"]));
}

#[test]
fn wraps_the_whole_command_line_in_the_sandbox_exactly_as_a_gapped_pane_does() {
    let inner = list(&["codex", "-p", "brief"]);
    let prefix = Some(SandboxWrap::Prefix { cmd: "sandbox-exec".to_string(), args: list(&["-p", "(profile)"]) });
    let (cmd, args) = spawn_command(&inner, &prefix);
    assert_eq!(cmd, "sandbox-exec");
    assert_eq!(args, list(&["-p", "(profile)", "codex", "-p", "brief"]));
    let full = Some(SandboxWrap::Full { argv: list(&["bwrap", "--", "codex"]) });
    let (cmd, args) = spawn_command(&inner, &full);
    assert_eq!(cmd, "bwrap");
    assert_eq!(args, list(&["--", "codex"]));
}

#[test]
fn runs_ungapped_with_no_sandbox_wrap_at_all_when_the_air_gap_default_is_off() {
    let mut run = run_of("r1", &["n1"], &[], false);
    match environment_ready(&mut run, "n1", &None, NOW) {
        EnvironmentReady::Spawn { cmd, args, header } => {
            assert_eq!(cmd, "codex");
            assert_eq!(args, list(&["-p", "n1"]));
            assert!(header.contains("n1"));
        },
        _ => panic!("the node is spawned"),
    }
    match environment_ready(&mut run, "ghost", &None, NOW) {
        EnvironmentReady::Over(out) => {
            assert!(out.told.is_none() && out.log.is_empty());
            assert_eq!(out.close.as_deref(), Some("run:r1:ghost"));
        },
        _ => panic!("there is no such node"),
    }
}

// ---- scheduling ----

fn finish(run: &mut RunState, id: &str, code: i32) {
    spawned(run, id, 4000);
    exited(run, id, Some(code), None, NOW);
}

#[test]
fn starts_a_node_only_after_every_upstream_exited_0() {
    let mut run = run_of("r1", &["a", "b", "c"], &[("a", "c"), ("b", "c")], true);
    assert_eq!(pump(&mut run, NOW).start, list(&["a", "b"]));
    finish(&mut run, "a", 0);
    assert!(pump(&mut run, NOW).start.is_empty());
    finish(&mut run, "b", 0);
    assert_eq!(pump(&mut run, NOW).start, list(&["c"]));
    assert!(settle_if_done(&mut run, NOW).is_none());
    finish(&mut run, "c", 0);
    let t = settle_if_done(&mut run, LATER).unwrap();
    assert_eq!(told_status(&t), "run:done");
    assert_eq!(t.snapshot.ended.as_deref(), Some(LATER));
    assert!(settle_if_done(&mut run, LATER).is_none());
}

#[test]
fn runs_a_layer_in_parallel_but_never_more_than_two_nodes_at_once() {
    let mut run = run_of("r1", &["a", "b", "c", "d"], &[], true);
    let first = pump(&mut run, NOW);
    assert_eq!(first.start.len(), 2);
    assert_eq!(first.told.iter().map(told_status).collect::<Vec<_>>(), list(&["a:running", "b:running"]));
    assert!(pump(&mut run, NOW).start.is_empty());
    finish(&mut run, "a", 0);
    assert_eq!(pump(&mut run, NOW).start, list(&["c"]));
}

#[test]
fn marks_the_failure_skips_its_descendants_and_leaves_a_sibling_branch_alone() {
    let mut run = run_of("r1", &["a", "b", "c", "d"], &[("a", "c"), ("c", "d")], true);
    pump(&mut run, NOW);
    finish(&mut run, "a", 1);
    assert!(pump(&mut run, NOW).start.is_empty());
    finish(&mut run, "b", 0);
    let t = settle_if_done(&mut run, NOW).unwrap();
    assert_eq!(told_status(&t), "run:failed");
    let got = statuses(&run);
    let find = |id: &str| got.iter().find(|(n, _)| n == id).unwrap().1.clone();
    assert_eq!((find("a"), find("b"), find("c"), find("d")), ("failed".to_string(), "done".to_string(), "skipped".to_string(), "skipped".to_string()));
    assert_eq!(run.nodes[run.find("c").unwrap()].started, None);
}

#[test]
fn keeps_scheduling_when_a_node_fails_before_its_process_ever_exists() {
    let mut run = run_of("r1", &["a", "b", "c"], &[], true);
    let first = pump(&mut run, NOW);
    assert!(!must_pump_again(&run, &first.start));
    let out = environment_failed(&mut run, "a", "no proxy", NOW);
    assert_eq!(out.log, "# could not prepare the agent environment: no proxy\n");
    assert_eq!(told_status(out.told.as_ref().unwrap()), "a:failed");
    assert!(must_pump_again(&run, &first.start));
    assert_eq!(pump(&mut run, NOW).start, list(&["c"]));
    assert_eq!(out.close, None);
    let outside = log_refused(&mut run, "b", NOW);
    assert!(outside.told.is_some() && outside.log.is_empty());
    assert_eq!(outside.close.as_deref(), Some("run:r1:b"));
    assert_eq!(status_of(&run, "b"), "failed");
    assert!(environment_failed(&mut run, "ghost", "x", NOW).told.is_none());
}

#[test]
fn records_a_missing_cli_as_a_failed_node_instead_of_taking_the_run_down() {
    let mut run = run_of("r1", &["a"], &[], true);
    pump(&mut run, NOW);
    let out = spawn_failed(&mut run, "a", true, "codex", NOW);
    assert_eq!(out.log, "# failed to start: ENOENT: codex\n");
    assert_eq!(out.close.as_deref(), Some("run:r1:a"));
    assert_eq!(status_of(&run, "a"), "failed");
    assert_eq!(told_status(&settle_if_done(&mut run, NOW).unwrap()), "run:failed");
    let mut other = run_of("r2", &["a"], &[], true);
    pump(&mut other, NOW);
    assert_eq!(spawn_failed(&mut other, "a", false, "denied", NOW).log, "# failed to start: denied\n");
}

#[test]
fn exits_are_told_with_their_code() {
    let mut run = run_of("r1", &["a", "b"], &[], true);
    pump(&mut run, NOW);
    spawned(&mut run, "a", 77);
    assert_eq!(kill_target(&run, "a"), Some(77));
    let out = exited(&mut run, "a", Some(3), None, LATER);
    assert!(out.log.contains('3'));
    assert_eq!(kill_target(&run, "a"), None);
    let n = &run.nodes[run.find("a").unwrap()];
    assert_eq!(n.exit, Some(3));
    assert_eq!(n.ended.as_deref(), Some(LATER));
    let killed = exited(&mut run, "b", None, Some(9), LATER);
    assert!(killed.log.contains('9'));
    assert_eq!(signed_i32(-15), "-15");
    assert_eq!(signed_i32(i32::MIN), "-2147483648");
}

// ---- cancelling ----

#[test]
fn cancel_kills_what_is_running_skips_what_has_not_started_settles_canceled() {
    let mut run = run_of("r1", &["a", "b"], &[("a", "b")], true);
    pump(&mut run, NOW);
    spawned(&mut run, "a", 77);
    let c = cancel(&mut run, NOW).unwrap();
    assert!(matches!(c.event, FlowEvent::Canceled { .. }));
    assert_eq!(c.terminate, vec![("a".to_string(), 77)]);
    assert_eq!(c.told.iter().map(told_status).collect::<Vec<_>>(), list(&["b:skipped"]));
    assert!(c.ended.is_none());
    exited(&mut run, "a", None, Some(15), NOW);
    assert_eq!(status_of(&run, "a"), "canceled");
    assert_eq!(told_status(&settle_if_done(&mut run, NOW).unwrap()), "run:canceled");
}

#[test]
fn never_spawns_into_a_run_cancelled_while_its_air_gap_was_still_coming_up() {
    let mut run = run_of("r1", &["a"], &[], true);
    pump(&mut run, NOW);
    assert!(stopped_before_spawn(&mut run, "a", NOW).is_none());
    cancel(&mut run, NOW);
    match environment_ready(&mut run, "a", &None, NOW) {
        EnvironmentReady::Over(out) => {
            assert!(out.told.is_some());
            assert_eq!(out.close.as_deref(), Some("run:r1:a"));
        },
        _ => panic!("the run was cancelled"),
    }
    assert_eq!(status_of(&run, "a"), "canceled");
    let out = stopped_before_spawn(&mut run, "a", NOW).unwrap();
    assert_eq!(out.log, "# canceled before starting\n");
    assert_eq!(out.close.as_deref(), Some("run:r1:a"));
}

#[test]
fn cancel_is_a_no_op_on_a_finished_run_and_an_error_on_an_unknown_one() {
    let mut run = run_of("r1", &["a"], &[], true);
    pump(&mut run, NOW);
    finish(&mut run, "a", 0);
    settle_if_done(&mut run, NOW);
    let mut runs = Runner::new();
    runs.register(run);
    runs.register(run_of("r2", &["a"], &[], true));
    assert!(matches!(cancel_run(&mut runs, "ghost", NOW), CancelReply::NoSuchRun));
    assert!(matches!(cancel_run(&mut runs, "r1", NOW), CancelReply::AlreadyOver));
    assert_eq!(runs.runs[0].status, "done");
    assert!(matches!(cancel_run(&mut runs, "r2", NOW), CancelReply::Canceled(_)));
    assert!(matches!(cancel_run(&mut runs, "r2", NOW), CancelReply::AlreadyOver));
    assert_eq!(find_run(&runs, "r2"), Some(1));
}

#[test]
fn kill_all_kills_every_live_node_and_the_run_settles_as_canceled() {
    let mut run = run_of("r1", &["a", "b"], &[], true);
    pump(&mut run, NOW);
    spawned(&mut run, "a", 11);
    spawned(&mut run, "b", 22);
    let mut runs = Runner::default();
    runs.register(run);
    assert_eq!(kill_all(&mut runs), vec![("a".to_string(), 11), ("b".to_string(), 22)]);
    assert!(runs.runs[0].canceling);
    exited(&mut runs.runs[0], "a", None, Some(9), NOW);
    exited(&mut runs.runs[0], "b", None, Some(9), NOW);
    assert_eq!(told_status(&settle_if_done(&mut runs.runs[0], NOW).unwrap()), "run:canceled");
}

// ---- snapshots ----

#[test]
fn snapshot_all_is_plain_data_with_no_spawn_field_newest_first() {
    let mut old = run_of("r1", &["a"], &[], true);
    old.started = NOW.to_string();
    let mut new = run_of("r2", &["a", "b"], &[("a", "b")], false);
    new.started = LATER.to_string();
    let mut runs = Runner::new();
    runs.register(old);
    runs.register(new);
    let all = snapshot_all(&runs);
    assert_eq!(all.len(), 2);
    assert_eq!((all[0].id.as_str(), all[1].id.as_str()), ("r2", "r1"));
    assert!(!all[0].airgap && all[1].airgap);
    assert_eq!(all[0].layers, vec![list(&["a"]), list(&["b"])]);
    assert_eq!(all[0].nodes[1].parents, list(&["a"]));
}

#[test]
fn run_json_is_rewritten_on_every_transition_and_matches_the_final_snapshot() {
    let mut run = run_of("r1", &["a"], &[], true);
    let first = pump(&mut run, NOW);
    assert_eq!(first.told[0].snapshot.nodes[0].status, "running");
    assert_eq!(first.told[0].snapshot.nodes[0].started.as_deref(), Some(NOW));
    finish(&mut run, "a", 0);
    let last = settle_if_done(&mut run, LATER).unwrap().snapshot;
    let now = run_snapshot(&run);
    assert_eq!((last.status.as_str(), now.status.as_str()), ("done", "done"));
    assert_eq!(last.ended, now.ended);
    assert_eq!(last.nodes[0].exit, Some(0));
}

// ---- names ----

#[test]
fn run_ids_are_fresh_and_sort_by_time() {
    assert_eq!(to_base36(0), "0");
    assert_eq!(to_base36(35), "z");
    assert_eq!(to_base36(36), "10");
    let taken = vec![to_base36(1_700_000_000_000)];
    let id = new_run_id(&taken, 1_700_000_000_000);
    assert_ne!(id, taken[0]);
    assert!(id.starts_with(&taken[0]));
    assert_eq!(new_run_id(&vec![], 36), "10");
    let mut runs = Runner::new();
    assert_eq!(runs.new_run_id(36), "10");
    runs.register(run_of("10", &["a"], &[], true));
    assert_eq!(runs.new_run_id(36), "10-2");
    assert!(to_base36(1_700_000_000_000) < to_base36(1_700_000_000_001));
    let again = first_free(&vec!["x".to_string(), id.clone()], "x".to_string());
    assert!(again != "x" && again != id);
}

#[test]
fn still_sanitizes_a_safe_segment_legal_id_for_the_log_filename() {
    let name = log_name("weird id:1", 0);
    assert!(name.chars().all(|c| c.is_ascii_alphanumeric() || c == '-' || c == '_' || c == '.'));
    assert!(!log_name("../../etc", 3).contains('/'));
    assert_ne!(log_name("a b", 0), log_name("a-b", 1));
}

// ---- the environment of a node ----

fn env_facts(gapped: bool, host_os: HostOs, strategy: SandboxStrategy) -> EnvFacts {
    EnvFacts { gapped, host_os, strategy, socket: None, socket_dir: None, shim: None, proxy: None }
}

fn env_of_node(f: &EnvFacts) -> BuiltEnv {
    let mut process_env = StrMap::new();
    process_env.set("PATH", "/usr/bin".to_string());
    process_env.set("HOME", "/home/x".to_string());
    process_env.set("OTHER", "1".to_string());
    let mut secrets = StrMap::new();
    secrets.set("SOME_API_KEY", "k".to_string());
    built_env(
        f,
        process_env,
        "/login/bin",
        &list(&["PATH", "HOME"]),
        secrets,
        "(profile)",
        &list(&["bwrap", "--", "codex"]),
        &list(&["shim", "codex"]),
    )
}

fn var(env: &BuiltEnv, name: &str) -> Option<String> {
    env.env.iter().find(|(k, _)| k == name).map(|(_, v)| v.clone())
}

#[test]
fn a_node_without_the_gap_has_no_sandbox_and_no_proxy() {
    let f = env_facts(false, HostOs::Linux, SandboxStrategy::Refuse { reason: "no".to_string() });
    assert!(matches!(build_production_agent_env(&f), EnvStep::Ready(None)));
    let env = env_of_node(&f);
    assert!(env.sandbox.is_none());
    assert_eq!(var(&env, "PATH").as_deref(), Some("/login/bin"));
    assert_eq!(var(&env, "HOME").as_deref(), Some("/home/x"));
    assert_eq!(var(&env, "SOME_API_KEY").as_deref(), Some("k"));
    assert_eq!(var(&env, "OTHER"), None);
    assert_eq!(var(&env, "HTTP_PROXY"), None);
}

#[test]
fn a_gapped_node_is_held_by_the_profile_on_macos() {
    let mut f = env_facts(true, HostOs::MacOs, SandboxStrategy::Bwrap);
    assert!(matches!(build_production_agent_env(&f), EnvStep::OpenProxy));
    f.proxy = Some(Ok(4100));
    assert!(matches!(build_production_agent_env(&f), EnvStep::Ready(Some(4100))));
    let env = env_of_node(&f);
    match &env.sandbox {
        Some(SandboxWrap::Prefix { cmd, args }) => {
            assert_eq!(cmd, "/usr/bin/sandbox-exec");
            assert_eq!(*args, list(&["-p", "(profile)"]));
        },
        _ => panic!("a gapped node is sandboxed"),
    }
    assert_eq!(var(&env, "HTTPS_PROXY").as_deref(), Some("http://127.0.0.1:4100"));
}

#[test]
fn a_gapped_node_is_held_by_the_command_line_of_the_strategy_on_linux() {
    for (strategy, argv) in [(SandboxStrategy::Bwrap, list(&["bwrap", "--", "codex"])), (SandboxStrategy::SelfUnshare, list(&["shim", "codex"]))] {
        let mut f = env_facts(true, HostOs::Linux, strategy);
        assert!(matches!(build_production_agent_env(&f), EnvStep::FindSocket));
        f.socket = Some(Some("/run/s".to_string()));
        assert!(matches!(build_production_agent_env(&f), EnvStep::MakeSocketDir));
        f.socket_dir = Some(None);
        assert!(matches!(build_production_agent_env(&f), EnvStep::FindShim));
        f.shim = Some(Ok("/bin/shim".to_string()));
        assert!(matches!(build_production_agent_env(&f), EnvStep::OpenProxy));
        f.proxy = Some(Ok(4100));
        let env = env_of_node(&f);
        assert!(matches!(&env.sandbox, Some(SandboxWrap::Full { argv: a }) if *a == argv));
        assert_eq!(var(&env, "http_proxy").as_deref(), Some("http://127.0.0.1:4100"));
    }
}

#[test]
fn an_environment_without_the_gap_needs_nothing() {
    let f = env_facts(false, HostOs::Other, SandboxStrategy::SelfUnshare);
    assert!(matches!(build_production_agent_env(&f), EnvStep::Ready(None)));
}

#[test]
fn an_environment_is_refused_where_nothing_enforces_it() {
    let f = env_facts(true, HostOs::Other, SandboxStrategy::SelfUnshare);
    assert!(matches!(build_production_agent_env(&f), EnvStep::Fail(e) if e.contains("only supported on macOS and Linux")));
    let f = env_facts(true, HostOs::Linux, SandboxStrategy::Refuse { reason: "no user namespaces".to_string() });
    assert!(matches!(build_production_agent_env(&f), EnvStep::Fail(e) if e == "no user namespaces"));
}

#[test]
fn an_environment_on_linux_opens_its_proxy_last() {
    let mut f = env_facts(true, HostOs::Linux, SandboxStrategy::SelfUnshare);
    assert!(matches!(build_production_agent_env(&f), EnvStep::FindSocket));
    f.socket = Some(None);
    assert!(matches!(build_production_agent_env(&f), EnvStep::Fail(e) if e.contains("socket path component")));
    f.socket = Some(Some("/run/pane.sock".to_string()));
    assert!(matches!(build_production_agent_env(&f), EnvStep::MakeSocketDir));
    f.socket_dir = Some(Some("denied".to_string()));
    assert!(matches!(build_production_agent_env(&f), EnvStep::Fail(e) if e == "denied"));
    f.socket_dir = Some(None);
    assert!(matches!(build_production_agent_env(&f), EnvStep::FindShim));
    f.shim = Some(Err("missing".to_string()));
    assert!(matches!(build_production_agent_env(&f), EnvStep::Fail(e) if e == "missing"));
    f.shim = Some(Ok("/bin/shim".to_string()));
    assert!(matches!(build_production_agent_env(&f), EnvStep::OpenProxy));
    f.proxy = Some(Err("no port".to_string()));
    assert!(matches!(build_production_agent_env(&f), EnvStep::Fail(e) if e == "no port"));
    f.proxy = Some(Ok(4100));
    assert!(matches!(build_production_agent_env(&f), EnvStep::Ready(Some(4100))));
}

#[test]
fn an_environment_on_macos_needs_a_proxy_alone() {
    let mut f = env_facts(true, HostOs::MacOs, SandboxStrategy::Refuse { reason: "x".to_string() });
    assert!(matches!(build_production_agent_env(&f), EnvStep::OpenProxy));
    f.proxy = Some(Ok(4100));
    assert!(matches!(build_production_agent_env(&f), EnvStep::Ready(Some(4100))));
}

#[test]
fn frozen_airgap_default_always_returns_the_value_it_was_built_with() {
    for setting in [Json::Null, Json::Bool(true), Json::Bool(false)] {
        assert!(frozen_airgap_default(true).gapped(&setting));
        assert!(!frozen_airgap_default(false).gapped(&setting));
        assert!(frozen_airgap_default(SCHEDULED_RUN_AIRGAP).gapped(&setting));
    }
    assert!(GapDefault::Setting.gapped(&Json::Null));
    assert!(!GapDefault::Setting.gapped(&Json::Bool(false)));
}

#[test]
fn cancel_never_sigkills_a_node_that_exited_inside_the_grace_period() {
    let mut run = run_of("r1", &["a"], &[], true);
    pump(&mut run, NOW);
    spawned(&mut run, "a", 77);
    cancel(&mut run, NOW);
    assert!(run.nodes[0].kill_timer);
    assert_eq!(kill_target(&run, "a"), Some(77));
    exited(&mut run, "a", None, Some(15), NOW);
    assert_eq!(kill_target(&run, "a"), None);
    assert!(!run.nodes[0].kill_timer);
}

// ---- the event log ----

fn field(e: &FlowEvent, key: &str) -> Option<String> {
    match lookup(&event_fields(e), key) {
        Some(Json::Text(s)) | Some(Json::Number(s)) => Some(s.clone()),
        _ => None,
    }
}

fn keys(e: &FlowEvent) -> Vec<String> {
    event_fields(e).into_iter().map(|(k, _)| k).collect()
}

#[test]
fn event_log_records_the_run_and_every_node_transition_identifiers_only() {
    let mut run = run_of("r1", &["a"], &[], true);
    let begun = run_started(&run);
    assert_eq!(keys(&begun), list(&["event", "run", "flow", "status", "nodes"]));
    assert_eq!(field(&begun, "nodes").as_deref(), Some("1"));
    let first = pump(&mut run, NOW);
    assert_eq!(keys(&first.told[0].event), list(&["event", "run", "flow", "node", "agent", "status"]));
    assert_eq!(field(&first.told[0].event, "status").as_deref(), Some("running"));
    spawned(&mut run, "a", 9);
    let done = exited(&mut run, "a", Some(-2), None, NOW).told.unwrap();
    assert_eq!(keys(&done.event), list(&["event", "run", "flow", "node", "agent", "status", "exit"]));
    assert_eq!(field(&done.event, "exit").as_deref(), Some("-2"));
    let ended = settle_if_done(&mut run, NOW).unwrap();
    assert_eq!(keys(&ended.event), list(&["event", "run", "flow", "status"]));
    assert_eq!(field(&ended.event, "status").as_deref(), Some("failed"));
}

#[test]
fn logs_the_cancellation_itself_not_just_the_fallout() {
    let mut run = run_of("r1", &["a"], &[], true);
    let c = cancel(&mut run, NOW).unwrap();
    assert_eq!(keys(&c.event), list(&["event", "run", "flow"]));
    assert_eq!(field(&c.event, "event").as_deref(), Some("cancel"));
}

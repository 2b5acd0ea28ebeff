use tome::clock::{elapsed_ms, format_elapsed, format_iso8601, parse_iso8601_ms};
use tome::flow::graph::layers;
use tome::flow::run_plan::{
    next_actions, run_pane_id, run_plan, run_status, running_count, RunLike, CONCURRENCY_CAP, RUN_PANE_PREFIX,
};
use tome::strmap::StrMap;

fn graph(ids: &[&str], pairs: &[(&str, &str)]) -> (Vec<String>, Vec<(String, String)>) {
    (
        ids.iter().map(|s| s.to_string()).collect(),
        pairs.iter().map(|(a, b)| (a.to_string(), b.to_string())).collect(),
    )
}

fn statuses(pairs: &[(&str, &str)]) -> StrMap<String> {
    let mut map = StrMap::new();
    for (id, s) in pairs {
        map.set(id, s.to_string());
    }
    map
}

// ---- layers ----

#[test]
fn layers_puts_every_node_with_no_unmet_dependency_in_layer_0() {
    let (ids, edges) = graph(&["n1", "n2", "n3"], &[]);
    assert_eq!(layers(&ids, &edges), Some(vec![vec!["n1".into(), "n2".into(), "n3".into()]]));
}

#[test]
fn layers_is_one_node_per_layer_for_a_chain() {
    let (ids, edges) = graph(&["n1", "n2", "n3"], &[("n1", "n2"), ("n2", "n3")]);
    assert_eq!(layers(&ids, &edges), Some(vec![vec!["n1".into()], vec!["n2".into()], vec!["n3".into()]]));
}

#[test]
fn layers_groups_a_fan_out_and_rejoins_on_the_fan_in() {
    let (ids, edges) = graph(&["n1", "n2", "n3", "n4"], &[("n1", "n2"), ("n1", "n3"), ("n2", "n4"), ("n3", "n4")]);
    assert_eq!(layers(&ids, &edges), Some(vec![vec!["n1".into()], vec!["n2".into(), "n3".into()], vec!["n4".into()]]));
}

#[test]
fn layers_holds_a_node_back_until_its_last_dependency_lands() {
    let (ids, edges) = graph(&["n1", "n2", "n3"], &[("n1", "n2"), ("n1", "n3"), ("n2", "n3")]);
    assert_eq!(layers(&ids, &edges), Some(vec![vec!["n1".into()], vec!["n2".into()], vec!["n3".into()]]));
}

#[test]
fn layers_starts_disconnected_nodes_immediately_alongside_the_roots() {
    let (ids, edges) = graph(&["n1", "n2", "n3"], &[("n1", "n3")]);
    assert_eq!(layers(&ids, &edges), Some(vec![vec!["n1".into(), "n2".into()], vec!["n3".into()]]));
}

#[test]
fn layers_counts_two_edges_between_the_same_pair_as_one_dependency() {
    let (ids, edges) = graph(&["n1", "n2"], &[("n1", "n2"), ("n1", "n2")]);
    assert_eq!(layers(&ids, &edges), Some(vec![vec!["n1".into()], vec!["n2".into()]]));
}

#[test]
fn layers_ignores_a_dangling_edge_instead_of_losing_the_node_it_names() {
    let (ids, edges) = graph(&["n1", "n2"], &[("ghost", "n2"), ("n1", "nowhere")]);
    assert_eq!(layers(&ids, &edges), Some(vec![vec!["n1".into(), "n2".into()]]));
}

#[test]
fn layers_returns_none_for_a_cycle() {
    let (ids, edges) = graph(&["n1", "n2"], &[("n1", "n2"), ("n2", "n1")]);
    assert_eq!(layers(&ids, &edges), None);
    let (ids, edges) = graph(&["n1"], &[("n1", "n1")]);
    assert_eq!(layers(&ids, &edges), None);
    let (ids, edges) = graph(&["n1", "n2", "n3"], &[("n1", "n2"), ("n2", "n3"), ("n3", "n2")]);
    assert_eq!(layers(&ids, &edges), None);
}

#[test]
fn layers_has_no_layers_at_all_for_an_empty_flow() {
    let (ids, edges) = graph(&[], &[]);
    assert_eq!(layers(&ids, &edges), Some(vec![]));
}

// ---- run_plan ----

#[test]
fn run_plan_carries_layers_flat_order_and_each_nodes_parents() {
    let (ids, edges) = graph(&["n1", "n2", "n3"], &[("n1", "n3"), ("n2", "n3")]);
    let plan = run_plan(&ids, &edges).unwrap();
    assert_eq!(plan.layers, vec![vec!["n1".to_string(), "n2".to_string()], vec!["n3".to_string()]]);
    assert_eq!(plan.order, vec!["n1".to_string(), "n2".to_string(), "n3".to_string()]);
    assert_eq!(*plan.parents.get("n3").unwrap(), vec!["n1".to_string(), "n2".to_string()]);
    assert_eq!(*plan.parents.get("n1").unwrap(), Vec::<String>::new());
}

#[test]
fn run_plan_dedupes_parents_so_a_double_wired_pair_is_one_dependency() {
    let (ids, edges) = graph(&["n1", "n2"], &[("n1", "n2"), ("n1", "n2")]);
    let plan = run_plan(&ids, &edges).unwrap();
    assert_eq!(*plan.parents.get("n2").unwrap(), vec!["n1".to_string()]);
}

#[test]
fn run_plan_is_none_for_a_cycle() {
    let (ids, edges) = graph(&["n1", "n2"], &[("n1", "n2"), ("n2", "n1")]);
    assert!(run_plan(&ids, &edges).is_none());
}

// ---- next_actions — what may start ----

#[test]
fn next_actions_starts_the_roots_capped_at_two_across_the_whole_run() {
    assert_eq!(CONCURRENCY_CAP, 2);
    let (ids, edges) = graph(&["n1", "n2", "n3", "n4"], &[]);
    let plan = run_plan(&ids, &edges).unwrap();
    let na = next_actions(&plan, &StrMap::new());
    assert_eq!(na.start, vec!["n1".to_string(), "n2".to_string()]);
    assert!(na.skip.is_empty());
}

#[test]
fn next_actions_counts_nodes_already_running_against_the_cap() {
    let (ids, edges) = graph(&["n1", "n2", "n3", "n4"], &[]);
    let plan = run_plan(&ids, &edges).unwrap();
    assert_eq!(next_actions(&plan, &statuses(&[("n1", "running")])).start, vec!["n2".to_string()]);
    assert!(next_actions(&plan, &statuses(&[("n1", "running"), ("n2", "running")])).start.is_empty());
}

#[test]
fn next_actions_counts_them_across_layers_not_per_layer() {
    let (ids, edges) = graph(&["n1", "n2", "n3", "n4"], &[("n1", "n3"), ("n1", "n4")]);
    let plan = run_plan(&ids, &edges).unwrap();
    let na = next_actions(&plan, &statuses(&[("n1", "done"), ("n2", "running")]));
    assert_eq!(na.start, vec!["n3".to_string()]);
}

#[test]
fn next_actions_holds_a_node_until_every_parent_is_done() {
    let (ids, edges) = graph(&["n1", "n2", "n3"], &[("n1", "n3"), ("n2", "n3")]);
    let plan = run_plan(&ids, &edges).unwrap();
    assert!(next_actions(&plan, &statuses(&[("n1", "done"), ("n2", "running")])).start.is_empty());
    assert_eq!(
        next_actions(&plan, &statuses(&[("n1", "done"), ("n2", "done")])).start,
        vec!["n3".to_string()]
    );
}

#[test]
fn next_actions_never_restarts_a_node_that_has_already_run() {
    let (ids, edges) = graph(&["n1", "n2"], &[("n1", "n2")]);
    let plan = run_plan(&ids, &edges).unwrap();
    let na = next_actions(&plan, &statuses(&[("n1", "done"), ("n2", "done")]));
    assert!(na.start.is_empty() && na.skip.is_empty());
    let na = next_actions(&plan, &statuses(&[("n1", "done"), ("n2", "running")]));
    assert!(na.start.is_empty() && na.skip.is_empty());
}

#[test]
fn next_actions_treats_a_missing_status_as_pending() {
    let (ids, edges) = graph(&["n1", "n2"], &[("n1", "n2")]);
    let plan = run_plan(&ids, &edges).unwrap();
    assert_eq!(next_actions(&plan, &StrMap::new()).start, vec!["n1".to_string()]);
}

// ---- next_actions — a failure writes off everything downstream ----

#[test]
fn next_actions_skips_the_whole_descendant_cone_in_one_call() {
    let (ids, edges) = graph(&["n1", "n2", "n3", "n4"], &[("n1", "n2"), ("n2", "n3"), ("n3", "n4")]);
    let plan = run_plan(&ids, &edges).unwrap();
    let na = next_actions(&plan, &statuses(&[("n1", "done"), ("n2", "failed")]));
    assert_eq!(na.skip, vec!["n3".to_string(), "n4".to_string()]);
    assert!(na.start.is_empty());
}

#[test]
fn next_actions_leaves_a_sibling_branch_alone() {
    let (ids, edges) = graph(&["n1", "n2", "n3", "n4"], &[("n1", "n3"), ("n2", "n4")]);
    let plan = run_plan(&ids, &edges).unwrap();
    let na = next_actions(&plan, &statuses(&[("n1", "failed"), ("n2", "done")]));
    assert_eq!(na.skip, vec!["n3".to_string()]);
    assert_eq!(na.start, vec!["n4".to_string()]);
}

#[test]
fn next_actions_writes_off_a_fan_in_when_only_one_parent_failed() {
    let (ids, edges) = graph(&["n1", "n2", "n3"], &[("n1", "n3"), ("n2", "n3")]);
    let plan = run_plan(&ids, &edges).unwrap();
    assert_eq!(next_actions(&plan, &statuses(&[("n1", "done"), ("n2", "failed")])).skip, vec!["n3".to_string()]);
}

#[test]
fn next_actions_treats_cancelled_and_skipped_upstreams_like_a_failure() {
    let (ids, edges) = graph(&["n1", "n2", "n3"], &[("n1", "n2"), ("n2", "n3")]);
    let plan = run_plan(&ids, &edges).unwrap();
    assert_eq!(
        next_actions(&plan, &statuses(&[("n1", "canceled")])).skip,
        vec!["n2".to_string(), "n3".to_string()]
    );
    assert_eq!(
        next_actions(&plan, &statuses(&[("n1", "done"), ("n2", "skipped")])).skip,
        vec!["n3".to_string()]
    );
}

#[test]
fn next_actions_writes_nothing_off_while_the_failing_branch_still_runs() {
    let (ids, edges) = graph(&["n1", "n2"], &[("n1", "n2")]);
    let plan = run_plan(&ids, &edges).unwrap();
    assert!(next_actions(&plan, &statuses(&[("n1", "running")])).skip.is_empty());
}

#[test]
fn next_actions_reports_skips_even_when_the_cap_has_no_room_to_start() {
    let (ids, edges) = graph(&["n1", "n2", "n3", "n4"], &[("n1", "n4")]);
    let plan = run_plan(&ids, &edges).unwrap();
    let na = next_actions(&plan, &statuses(&[("n1", "failed"), ("n2", "running"), ("n3", "running")]));
    assert_eq!(na.skip, vec!["n4".to_string()]);
    assert!(na.start.is_empty());
}

// ---- run_status ----

#[test]
fn run_status_is_running_while_anything_is_pending_or_running() {
    assert_eq!(run_status(&statuses(&[("n1", "running"), ("n2", "pending")])), "running");
    assert_eq!(run_status(&statuses(&[("n1", "done"), ("n2", "pending")])), "running");
}

#[test]
fn run_status_is_done_only_when_every_node_is_done() {
    assert_eq!(run_status(&statuses(&[("n1", "done"), ("n2", "done")])), "done");
}

#[test]
fn run_status_is_failed_when_a_node_failed() {
    assert_eq!(run_status(&statuses(&[("n1", "done"), ("n2", "failed"), ("n3", "skipped")])), "failed");
}

#[test]
fn run_status_reports_cancellation_ahead_of_the_failure_cancelling_caused() {
    assert_eq!(run_status(&statuses(&[("n1", "canceled"), ("n2", "skipped")])), "canceled");
    assert_eq!(run_status(&statuses(&[("n1", "failed"), ("n2", "canceled")])), "canceled");
}

// ---- running_count ----

#[test]
fn running_count_counts_the_live_runs_and_nothing_else() {
    let live = |s: &str| Some(RunLike { status: s.to_string() });
    let runs = vec![live("running"), live("done"), live("failed"), live("running")];
    assert_eq!(running_count(&runs), 2);
    assert_eq!(running_count(&[live("done")]), 0);
}

#[test]
fn running_count_survives_an_empty_list_and_a_hole_in_one() {
    assert_eq!(running_count(&[]), 0);
    assert_eq!(running_count(&[None, None, Some(RunLike { status: "running".to_string() })]), 1);
}

// ---- run_pane_id ----

#[test]
fn run_pane_id_carries_the_prefix_the_status_bar_filters_on() {
    assert_eq!(run_pane_id("m1h2k3", "n1"), "run:m1h2k3:n1");
    assert!(run_pane_id("m1h2k3", "n1").starts_with(RUN_PANE_PREFIX));
    for pane_id in ["pty-4", "chat-2", "editor-1"] {
        assert!(!pane_id.starts_with(RUN_PANE_PREFIX));
    }
}

// ---- elapsed_ms / format_elapsed ----

#[test]
fn elapsed_ms_ticks_against_now_while_a_run_is_live() {
    let now = parse_iso8601_ms("2026-08-09T10:00:09.000Z").unwrap();
    assert_eq!(elapsed_ms(Some("2026-08-09T10:00:00.000Z"), None, now), 9000);
}

#[test]
fn elapsed_ms_freezes_at_ended_once_settled() {
    let now = parse_iso8601_ms("2026-08-09T12:00:00.000Z").unwrap();
    assert_eq!(elapsed_ms(Some("2026-08-09T10:00:00.000Z"), Some("2026-08-09T10:01:30.000Z"), now), 90_000);
}

#[test]
fn elapsed_ms_is_0_for_an_unparseable_stamp_and_never_negative() {
    assert_eq!(elapsed_ms(Some("not a date"), None, 0), 0);
    assert_eq!(elapsed_ms(None, None, 1000), 0);
    let now = parse_iso8601_ms("2026-08-09T10:00:00.000Z").unwrap();
    assert_eq!(elapsed_ms(Some("2026-08-09T10:00:05.000Z"), None, now), 0);
}

#[test]
fn format_elapsed_shows_two_units_at_most_zero_padding_the_smaller() {
    assert_eq!(format_elapsed(0), "0s");
    assert_eq!(format_elapsed(8400), "8s");
    assert_eq!(format_elapsed(64_000), "1m 04s");
    assert_eq!(format_elapsed(59 * 60_000 + 59_000), "59m 59s");
    assert_eq!(format_elapsed(2 * 3_600_000 + 3 * 60_000), "2h 03m");
}

#[test]
fn parse_iso8601_ms_cross_checks_against_known_epoch_instants() {
    assert_eq!(parse_iso8601_ms("1970-01-01T00:00:00.000Z"), Some(0));
    assert_eq!(parse_iso8601_ms("2000-02-29T00:00:00.000Z"), Some(951_782_400_000));
    assert_eq!(parse_iso8601_ms("2024-02-29T23:59:59.000Z"), Some(1_709_251_199_000));
}

// ---- further cases ----

#[test]
fn stamps_read_back_to_the_millisecond() {
    for ms in [0u64, 1, 999, 86_399_999, 951_782_400_000, 1_709_251_199_123, 253_402_300_799_999] {
        assert_eq!(parse_iso8601_ms(&format_iso8601(ms)), Some(ms as i64));
    }
    assert_eq!(format_iso8601(1_709_251_199_123), "2024-02-29T23:59:59.123Z");
}

#[test]
fn stamps_sort_as_their_instants_do() {
    let stamps: Vec<String> = [0u64, 7, 59_999, 1_000_000_000_000, 1_709_251_199_123].iter().map(|ms| format_iso8601(*ms)).collect();
    for pair in stamps.windows(2) {
        assert!(pair[0] < pair[1]);
    }
}

#[test]
fn stamps_that_are_none_are_refused() {
    for s in [
        "",
        "2026-08-09",
        "2026-08-09T10:00:00",
        "+026-08-09T10:00:00.000Z",
        "2026-08-09T10:00:00.000",
        "2026-13-09T10:00:00.000Z",
        "2026-08-09T24:00:00.000Z",
    ] {
        assert_eq!(parse_iso8601_ms(s), None, "{s}");
    }
}

#[test]
fn layers_of_a_wide_and_deep_graph_place_every_node_once() {
    let ids: Vec<String> = (0..40).map(|i| format!("n{i}")).collect();
    let mut edges = Vec::new();
    for i in 0..40usize {
        for j in [i + 1, i + 7] {
            if j < 40 {
                edges.push((format!("n{i}"), format!("n{j}")));
            }
        }
    }
    let out = layers(&ids, &edges).unwrap();
    let mut seen: Vec<String> = out.iter().flatten().cloned().collect();
    seen.sort();
    let mut all = ids.clone();
    all.sort();
    assert_eq!(seen, all);
    let depth = |id: &str| out.iter().position(|l| l.iter().any(|x| x == id)).unwrap();
    for (a, b) in &edges {
        assert!(depth(a) < depth(b));
    }
    assert!(out.iter().all(|l| !l.is_empty()));
}

#[test]
fn a_run_driven_to_its_end_never_goes_over_the_cap_and_never_stalls() {
    let (ids, edges) = graph(&["a", "b", "c", "d", "e"], &[("a", "c"), ("b", "c"), ("c", "d"), ("c", "e")]);
    let plan = run_plan(&ids, &edges).unwrap();
    let mut state: StrMap<String> = StrMap::new();
    let mut steps = 0;
    while run_status(&state) == "running" || steps == 0 {
        let next = next_actions(&plan, &state);
        assert!(next.skip.is_empty());
        for id in &next.start {
            state.set(id, "running".to_string());
        }
        let live: Vec<String> = ids.iter().filter(|i| state.get(i).map(|s| s == "running").unwrap_or(false)).cloned().collect();
        assert!(!live.is_empty() && live.len() <= CONCURRENCY_CAP);
        state.set(&live[0], "done".to_string());
        for id in &ids {
            if !state.contains(id) {
                state.set(id, "pending".to_string());
            }
        }
        steps += 1;
        assert!(steps < 20);
    }
    assert_eq!(run_status(&state), "done");
}

use tome::export::{export_consent, export_destinations, export_place, export_revoke, export_source, export_target, runs_export, ExportStep, ExportTarget};
use tome::flow::runner::RunSnapshot;
use tome::json::{object, text_of, Json};
use tome::listing::{list_records, Listed};
use tome::remote::{remote_consent, remote_revoke, remote_sources, resolve_source, source_id, RemoteSource};
use tome::schedules::{
    decide_due_schedule, flow_path_has_a_running_run, plan_tick, schedules_delete, schedules_set, skipped_locked, DueOutcome,
    Schedule, Tick,
};
use tome::strmap::StrMap;

fn run(id: &str, flow_path: &str, status: &str) -> RunSnapshot {
    RunSnapshot {
        id: id.to_string(),
        flow: "pipeline".to_string(),
        flow_path: flow_path.to_string(),
        root: "/ws".to_string(),
        dir: format!("/ws/.tome/flows/pipeline/runs/{id}"),
        status: status.to_string(),
        canceling: false,
        airgap: true,
        started: "2026-01-02T03:04:05.006Z".to_string(),
        ended: None,
        layers: vec![],
        nodes: vec![],
    }
}

// ---- a locked app ----

#[test]
fn nothing_is_started_while_the_app_is_locked() {
    let due = || vec!["s1".to_string(), "s2".to_string()];
    let plan = plan_tick(due(), true);
    assert!(plan.run_ids.is_empty());
    assert_eq!(plan.locked_skip_count, 2);
    let fields = skipped_locked(&plan).unwrap();
    assert_eq!(fields.len(), 1);
    assert_eq!(fields[0].0, "count");
    assert!(matches!(&fields[0].1, Json::Number(n) if n == "2"));
    let plan = plan_tick(due(), false);
    assert_eq!(plan.run_ids, due());
    assert_eq!(plan.locked_skip_count, 0);
    assert!(skipped_locked(&plan).is_none());
    assert!(skipped_locked(&plan_tick(vec![], true)).is_none());
    let mut list = vec![];
    set(&mut list, None, "s1", "/ws/a.flow.json", "h1");
    let mut tick = Tick::new(list, plan_tick(due(), true));
    assert_eq!(tick.due("s1", Some("h1"), &vec![]), None);
    assert_eq!(tick.due("s1", Some("changed"), &vec![]), None);
    assert!(!tick.changed);
}

// ---- schedules ----

fn set(list: &mut Vec<Schedule>, id: Option<&str>, fresh: &str, path: &str, sha1: &str) -> String {
    schedules_set(list, id.map(|s| s.to_string()), fresh.to_string(), path.to_string(), Json::Null, sha1.to_string(), true)
}

#[test]
fn a_schedule_keeps_its_id_only_where_it_is_known() {
    let mut list = vec![];
    assert_eq!(set(&mut list, None, "s1", "/ws/a.flow.json", "h1"), "s1");
    assert_eq!(set(&mut list, Some("s1"), "s2", "/ws/b.flow.json", "h2"), "s1");
    assert_eq!(list.len(), 1);
    assert_eq!(list[0].flow_path, "/ws/b.flow.json");
    assert_eq!(list[0].flow_sha1, "h2");
    assert_eq!(set(&mut list, Some("forged"), "s3", "/ws/c.flow.json", "h3"), "s3");
    assert_eq!(list.len(), 2);
}

#[test]
fn a_deleted_schedule_is_gone() {
    let mut list = vec![];
    set(&mut list, None, "s1", "/ws/a.flow.json", "h1");
    set(&mut list, None, "s2", "/ws/b.flow.json", "h2");
    assert!(schedules_delete(&mut list, "s1"));
    assert!(!schedules_delete(&mut list, "s1"));
    assert_eq!(list.len(), 1);
    assert_eq!(list[0].id, "s2");
}

#[test]
fn a_due_schedule_starts_unless_its_flow_changed_or_runs() {
    let mut list = vec![];
    set(&mut list, None, "s1", "/ws/a.flow.json", "h1");
    assert_eq!(decide_due_schedule(&list[0], "h1", false), DueOutcome::Start);
    assert_eq!(decide_due_schedule(&list[0], "h1", true), DueOutcome::AlreadyRunning);
    assert_eq!(decide_due_schedule(&list[0], "h2", false), DueOutcome::Suspend);
    assert_eq!(decide_due_schedule(&list[0], "h2", true), DueOutcome::Suspend);
}

#[test]
fn only_a_running_run_of_the_same_flow_counts() {
    let runs = vec![run("r1", "/ws/a.flow.json", "done"), run("r2", "/ws/b.flow.json", "running")];
    assert!(!flow_path_has_a_running_run(&runs, "/ws/a.flow.json"));
    assert!(flow_path_has_a_running_run(&runs, "/ws/b.flow.json"));
    assert!(!flow_path_has_a_running_run(&vec![], "/ws/b.flow.json"));
}

#[test]
fn a_tick_starts_no_flow_twice() {
    let mut list = vec![];
    set(&mut list, None, "s1", "/ws/a.flow.json", "h1");
    set(&mut list, None, "s2", "/ws/a.flow.json", "h1");
    set(&mut list, None, "s3", "/ws/b.flow.json", "h3");
    let due = ["s1", "s2", "s3", "ghost"].iter().map(|s| s.to_string()).collect();
    let mut tick = Tick::new(list, plan_tick(due, false));
    assert_eq!(tick.flow_path_of("s1").as_deref(), Some("/ws/a.flow.json"));
    assert_eq!(tick.flow_path_of("ghost"), None);
    assert_eq!(tick.due("s1", Some("h1"), &vec![]), Some(DueOutcome::Start));
    tick.started("s1", "2026-01-02T03:04:05.006Z".to_string());
    assert_eq!(tick.due("s2", Some("h1"), &vec![]), Some(DueOutcome::AlreadyRunning));
    assert_eq!(tick.due("s3", Some("changed"), &vec![]), Some(DueOutcome::Suspend));
    assert_eq!(tick.due("ghost", Some("h1"), &vec![]), None);
    assert!(tick.changed);
    assert_eq!(tick.schedules[0].last_run.as_deref(), Some("2026-01-02T03:04:05.006Z"));
    assert!(tick.schedules[2].suspended.is_some());
    assert!(tick.schedules[1].suspended.is_none());
}

#[test]
fn a_flow_that_cannot_be_read_suspends_its_schedule() {
    let mut list = vec![];
    set(&mut list, None, "s1", "/ws/a.flow.json", "h1");
    let mut tick = Tick::new(list, plan_tick(vec!["s1".to_string()], false));
    assert_eq!(tick.due("s1", None, &vec![]), Some(DueOutcome::Suspend));
    assert!(tick.schedules[0].suspended.is_some());
}

// ---- exports ----

#[test]
fn a_place_is_kept_until_it_is_revoked() {
    let mut places = StrMap::new();
    assert_eq!(export_consent(&mut places, None, "d1".to_string(), "/out"), "d1");
    assert_eq!(export_consent(&mut places, Some("d1".to_string()), "d2".to_string(), "/other"), "d1");
    assert_eq!(export_consent(&mut places, Some("forged".to_string()), "d3".to_string(), "/third"), "d3");
    assert_eq!(export_place(&places, "d1"), Ok(&"/other"));
    assert_eq!(export_revoke(&mut places, "d1"), Some("/other"));
    assert_eq!(export_revoke(&mut places, "d1"), None);
    assert_eq!(export_place(&places, "d1"), Err("no such export destination".to_string()));
}

#[test]
fn only_a_finished_run_is_exported() {
    let runs = vec![run("r1", "/ws/a.flow.json", "done"), run("r2", "/ws/a.flow.json", "failed")];
    let dir = export_source(&runs, "r1").unwrap();
    assert!(dir.starts_with("/ws/") && dir.contains("pipeline") && dir.contains("r1"));
    assert_eq!(export_source(&runs, "r2"), Err("this run has not finished yet".to_string()));
    assert_eq!(export_source(&runs, "ghost"), Err("no such run".to_string()));
}

#[test]
fn an_export_goes_to_one_place() {
    let text = |s: &str| Some(s.to_string());
    assert!(matches!(export_target(true, text("d1"), None), Ok(ExportTarget::Destination(d)) if d == "d1"));
    assert!(matches!(export_target(true, None, text("/out")), Ok(ExportTarget::Folder(f)) if f == "/out"));
    assert!(export_target(true, None, None).is_err());
    assert!(matches!(export_target(false, text("d1"), None), Err(e) if e == "this run has no exported products yet"));
}

#[test]
fn an_export_takes_one_step_at_a_time() {
    let text = |s: &str| Some(s.to_string());
    let runs = vec![run("r1", "/ws/a.flow.json", "done"), run("r2", "/ws/a.flow.json", "running")];
    let dir = "/ws/.tome/flows/pipeline/out/r1";
    assert!(matches!(runs_export(&runs, "r1", None, text("d1"), None), ExportStep::Look(d) if d == dir));
    assert!(matches!(runs_export(&runs, "r1", Some(true), text("d1"), None), ExportStep::Send { from, place } if from == dir && place == "d1"));
    assert!(matches!(runs_export(&runs, "r1", Some(true), None, text("/out")), ExportStep::Copy { from, folder } if from == dir && folder == "/out"));
    let fails = vec![
        (runs_export(&runs, "r1", Some(false), text("d1"), None), "this run has no exported products yet"),
        (runs_export(&runs, "r1", Some(true), None, None), "export needs a destination or a folder"),
        (runs_export(&runs, "r1", Some(true), text("d1"), text("/out")), "export needs exactly one of destinationId or localPath"),
        (runs_export(&runs, "r2", None, text("d1"), None), "this run has not finished yet"),
        (runs_export(&runs, "ghost", None, text("d1"), None), "no such run"),
    ];
    for (step, why) in fails {
        assert!(matches!(step, ExportStep::Fail(e) if e == why));
    }
}

// ---- remote sources ----

fn source(id: &str, label: &str) -> RemoteSource {
    RemoteSource {
        id: id.to_string(),
        label: label.to_string(),
        host: "build.example".to_string(),
        repo_path: "/srv/repo".to_string(),
        hash: "h".to_string(),
    }
}

#[test]
fn a_source_is_replaced_by_one_of_the_same_id() {
    let mut list = vec![];
    remote_consent(&mut list, source("a", "first"));
    remote_consent(&mut list, source("b", "second"));
    remote_consent(&mut list, source("a", "third"));
    assert_eq!(list.len(), 2);
    assert!(matches!(resolve_source(&list, "a", Ok(())), Ok(s) if s.label == "third"));
    assert!(matches!(resolve_source(&list, "a", Err("changed".to_string())), Err(e) if e == "changed"));
    assert!(matches!(resolve_source(&list, "ghost", Ok(())), Err(e) if e == "no such remote source"));
}

#[test]
fn a_revoked_source_is_named_once() {
    let mut list = vec![source("a", "first"), source("b", "second")];
    assert_eq!(remote_revoke(&mut list, "a"), Some("first".to_string()));
    assert_eq!(remote_revoke(&mut list, "a"), None);
    assert_eq!(list.len(), 1);
    assert_eq!(source_id(&list, Some("b".to_string()), "fresh".to_string()), "b");
    assert_eq!(source_id(&list, Some("a".to_string()), "fresh".to_string()), "fresh");
    assert_eq!(source_id(&list, None, "fresh".to_string()), "fresh");
}

// ---- lists ----

fn listed(label: &str, id: &str) -> Listed {
    Listed {
        value: object(vec![
            ("id".to_string(), Json::Text(id.to_string())),
            ("label".to_string(), Json::Text(label.to_string())),
        ]),
    }
}

#[test]
fn records_are_listed_by_label_and_then_by_id() {
    let out = list_records(vec![listed("b", "2"), listed("a", "9"), listed("b", "1"), listed("", "5")]);
    let ids: Vec<&str> = out.iter().map(|l| text_of(&l.value, "id").unwrap().as_str()).collect();
    assert_eq!(ids, vec!["5", "9", "1", "2"]);
}

#[test]
fn places_and_sources_are_listed_alike() {
    let first = |v: Vec<Listed>| text_of(&v[0].value, "id").unwrap().clone();
    assert_eq!(first(export_destinations(vec![listed("b", "1"), listed("a", "2")])), "2");
    assert_eq!(first(remote_sources(vec![listed("b", "1"), listed("a", "2")])), "2");
}

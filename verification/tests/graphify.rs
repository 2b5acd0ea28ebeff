use tome::graphify::{
    ask, ask_args, build, cancel, graph_html, graph_json, out_dir, report, run_stage, status, AskEnd, BuildStep, Probe, Question,
    StageEnd, OUT_DIR, QUERY_CAP,
};
use tome::parse::cap_tail;

#[test]
fn cap_tail_keeps_the_tail_and_respects_char_boundaries() {
    let mut s = "aaaaaaaaaaaaaaaaaaaa".to_string();
    cap_tail(&mut s, 10);
    assert_eq!(s, "aaaaaaaaaa");

    let mut s = "éééééééééé".to_string();
    cap_tail(&mut s, 6);
    assert_eq!(s, "ééé");
}

#[test]
fn cap_tail_never_cuts_a_character_in_two() {
    let mut s = "éééé".to_string();
    cap_tail(&mut s, 5);
    assert_eq!(s, "éé");
    let mut s = "abc".to_string();
    cap_tail(&mut s, 3);
    assert_eq!(s, "abc");
    cap_tail(&mut s, 0);
    assert_eq!(s, "");
}

#[test]
fn out_paths_live_under_the_workspace() {
    let ws = "/tmp/ws";
    assert_eq!(graph_json(ws), "/tmp/ws/graphify-out/graph.json");
    assert_eq!(graph_html(ws), "/tmp/ws/graphify-out/graph.html");
    assert_eq!(report(ws), "/tmp/ws/graphify-out/GRAPH_REPORT.md");
    assert_eq!(out_dir(ws), "/tmp/ws/graphify-out");
    assert_eq!(OUT_DIR, "graphify-out");
}

// ---- what is known ----

#[test]
fn a_program_that_answers_is_available() {
    let probe = Probe::Exited { success: true, code: Some(0), stdout: " graphify 0.4.1 \nmore\n".to_string() };
    let s = status("/ws", probe, true);
    assert!(s.available && s.built);
    assert_eq!(s.version.as_deref(), Some("graphify 0.4.1"));
    assert_eq!(s.reason, None);
    assert_eq!(s.graph_json, "/ws/graphify-out/graph.json");
}

#[test]
fn a_program_that_does_not_answer_has_a_reason() {
    let cases = vec![
        (Probe::NotFound("no such file".to_string()), "graphify not found (no such file)"),
        (Probe::TimedOut, "graphify --version timed out"),
        (Probe::Failed("broken pipe".to_string()), "broken pipe"),
        (Probe::Exited { success: false, code: Some(2), stdout: String::new() }, "graphify --version exited 2"),
        (Probe::Exited { success: false, code: None, stdout: String::new() }, "graphify --version exited -1"),
    ];
    for (probe, reason) in cases {
        let s = status("/ws", probe, false);
        assert!(!s.available && !s.built);
        assert_eq!(s.version, None);
        assert_eq!(s.reason.as_deref(), Some(reason));
    }
}

// ---- building ----

#[test]
fn a_stage_reports_its_own_failure() {
    let args = vec!["cluster-only".to_string(), "/ws".to_string()];
    assert_eq!(run_stage(&args, StageEnd::Exited { success: true, code: Some(0) }), Ok(()));
    assert_eq!(
        run_stage(&args, StageEnd::Exited { success: false, code: Some(3) }),
        Err("graphify cluster-only /ws exited 3".to_string())
    );
    assert_eq!(run_stage(&args, StageEnd::TimedOut), Err("stage timed out".to_string()));
    assert_eq!(run_stage(&args, StageEnd::Failed("gone".to_string())), Err("gone".to_string()));
}

#[test]
fn a_build_runs_two_stages_and_stops_at_the_first_failure() {
    match build("/ws", false, None, None) {
        BuildStep::Run { say, args } => {
            assert_eq!(say.len(), 2);
            assert_eq!(args, vec!["/ws".to_string(), "--code-only".to_string()]);
        },
        _ => panic!("the code is read first"),
    }
    match build("/ws", false, Some(Ok(())), None) {
        BuildStep::Run { say, args } => {
            assert_eq!(say, vec!["[2/2] clustering communities and writing report + graph.html".to_string()]);
            assert_eq!(args, vec!["cluster-only".to_string(), "/ws".to_string(), "--no-label".to_string()]);
        },
        _ => panic!("the graph is clustered next"),
    }
    match build("/ws", false, Some(Ok(())), Some(Ok(()))) {
        BuildStep::Done { last, summary } => {
            assert_eq!(last, "done");
            assert_eq!(summary, "graph built — /ws/graphify-out/graph.json");
        },
        _ => panic!("both stages went well"),
    }
    match build("/ws", false, Some(Err("x".to_string())), None) {
        BuildStep::Fail(e) => assert_eq!(e, "extract failed: x"),
        _ => panic!("the first stage failed"),
    }
    match build("/ws", false, Some(Ok(())), Some(Err("y".to_string()))) {
        BuildStep::Fail(e) => assert_eq!(e, "cluster failed: y"),
        _ => panic!("the second stage failed"),
    }
}

#[test]
fn a_second_build_is_refused_while_one_is_running() {
    match build("/ws", true, None, None) {
        BuildStep::Fail(e) => assert_eq!(e, "a graph build is already running"),
        _ => panic!("one build at a time"),
    }
}

#[test]
fn a_build_is_cancelled_once() {
    let mut slot = Some(4242u32);
    assert_eq!(cancel(&mut slot, false), Some(vec!["kill".to_string(), "-9".to_string(), "4242".to_string()]));
    assert_eq!(slot, None);
    assert_eq!(cancel(&mut slot, false), None);
    slot = Some(7);
    assert_eq!(
        cancel(&mut slot, true),
        Some(vec!["taskkill".to_string(), "/PID".to_string(), "7".to_string(), "/F".to_string()])
    );
}

// ---- asking ----

#[test]
fn each_question_has_its_own_command_line() {
    let q = |s: &str| s.to_string();
    assert_eq!(ask_args(Question::Query(q("who calls main"))), vec![q("query"), q("who calls main")]);
    assert_eq!(ask_args(Question::Path { from: q("a"), to: q("b") }), vec![q("path"), q("a"), q("b")]);
    assert_eq!(ask_args(Question::Explain(q("x"))), vec![q("explain"), q("x")]);
    assert_eq!(ask_args(Question::Affected(q("y"))), vec![q("affected"), q("y")]);
}

fn exited(success: bool, code: i32, stdout: &str, stderr: &str) -> AskEnd {
    AskEnd::Exited { success, code: Some(code), stdout: stdout.to_string(), stderr: stderr.to_string() }
}

#[test]
fn an_answer_is_everything_that_was_printed() {
    assert_eq!(ask(exited(true, 0, "out", "")), Ok("out".to_string()));
    assert_eq!(ask(exited(true, 0, "", "err")), Ok("err".to_string()));
    assert_eq!(ask(exited(true, 0, "out", "err")), Ok("out\nerr".to_string()));
    assert_eq!(ask(exited(false, 1, "out", "err")), Err("exit 1:\nout\nerr".to_string()));
    assert_eq!(ask(AskEnd::TimedOut), Err("graphify timed out".to_string()));
    assert_eq!(ask(AskEnd::Failed("ENOENT".to_string())), Err("spawn graphify: ENOENT".to_string()));
}

#[test]
fn a_long_answer_keeps_its_end() {
    let long = format!("{}{}", "x".repeat(100), "y".repeat(QUERY_CAP));
    assert_eq!(ask(exited(true, 0, &long, "")), Ok("y".repeat(QUERY_CAP)));
}

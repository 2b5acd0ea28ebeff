use tome::flow::layout::auto_layout;
use tome::flow::tools::{
    bad_name, draft_failed, draft_flow_tool, draft_target, draft_written, flow_path, flows_dir, list_names, list_reply, pick_root,
    read_flow_tool, read_miss, structural_refusal, unsafe_folder_name, DraftFailure, PickedRoot, ReadFlow,
};
use tome::json::{array, lookup, object, text_of, Json};

fn text(s: &str) -> Json {
    Json::Text(s.to_string())
}

fn number(s: &str) -> Json {
    Json::Number(s.to_string())
}

fn entry(k: &str, v: Json) -> (String, Json) {
    (k.to_string(), v)
}

fn node(id: &str, name: &str) -> Json {
    object(vec![entry("id", text(id)), entry("kind", text("codex")), entry("name", text(name))])
}

fn edge(from: &str, to: &str) -> Json {
    object(vec![entry("id", text("e1")), entry("from", text(from)), entry("to", text(to))])
}

fn valid_flow() -> Json {
    object(vec![
        entry("version", number("1")),
        entry("name", text("anything")),
        entry("nodes", array(vec![node("n1", "Researcher"), node("n2", "Writer")])),
        entry("edges", array(vec![edge("n1", "n2")])),
    ])
}

fn roots() -> Vec<String> {
    vec!["/ws".to_string()]
}

fn refusal(roots: &Vec<String>, root_arg: Option<&str>, name: Option<&str>, flow: Option<Json>) -> String {
    match draft_flow_tool(roots, root_arg, name, flow) {
        Err(r) => {
            assert!(r.open_path.is_none());
            r.text
        },
        Ok(_) => panic!("the draft should have been refused"),
    }
}

// ---- drafting ----

#[test]
fn refuses_everything_until_a_workspace_folder_is_open() {
    let said = refusal(&vec![], None, Some("x"), Some(valid_flow()));
    assert!(said.to_lowercase().contains("workspace folder"));
}

#[test]
fn refuses_traversal_shaped_names_without_writing_anything() {
    for name in ["../escape", "a/b", "a\\b", "..", "", "   "] {
        let said = refusal(&roots(), None, Some(name), Some(valid_flow()));
        assert!(said.to_lowercase().contains("name"), "name={name} text={said}");
    }
    assert_eq!(refusal(&roots(), None, None, Some(valid_flow())), "Flow name must be a non-empty string.");
}

#[test]
fn refuses_an_explicit_root_that_is_not_an_open_folder_verbatim() {
    let said = refusal(&roots(), Some("/ws/sub"), Some("x"), Some(valid_flow()));
    assert!(said.to_lowercase().contains("unknown root"));
    assert_eq!(said, "Unknown root. Open workspace folders: /ws");
}

#[test]
fn refuses_non_document_flow_shapes() {
    for flow in [Json::Null, text("a string"), array(vec![text("array")])] {
        let said = refusal(&roots(), None, Some("x"), Some(flow));
        assert!(said.to_lowercase().contains("flow"));
    }
    let bad_shape = object(vec![entry("nodes", text("nope"))]);
    let said = refusal(&roots(), None, Some("x"), Some(bad_shape));
    assert!(said.to_lowercase().contains("array"));
    assert!(refusal(&roots(), None, Some("x"), None).to_lowercase().contains("flow"));
}

#[test]
fn refuses_structural_errors_without_writing() {
    let r = structural_refusal(&vec!["duplicate node id: n1".to_string(), "edge to nowhere".to_string()]);
    assert!(r.text.contains("structural errors"));
    assert!(r.text.contains("duplicate node id"));
    assert_eq!(r.text, "Refused — structural errors (nothing written):\n- duplicate node id: n1\n- edge to nowhere");
    assert!(r.open_path.is_none());
}

#[test]
fn writes_a_valid_flow_and_reports_create_then_update() {
    let draft = match draft_flow_tool(&roots(), None, Some("pipeline"), Some(valid_flow())) {
        Ok(d) => d,
        Err(r) => panic!("refused: {}", r.text),
    };
    assert_eq!(draft.root, "/ws");
    assert!(matches!(lookup(&draft.doc, "edges"), Some(Json::Array(v)) if v.len() == 1));
    assert!(matches!(lookup(&draft.doc, "name"), Some(Json::Text(n)) if n == "pipeline"));
    assert!(matches!(lookup(&draft.doc, "version"), Some(Json::Number(n)) if n == "1"));
    let path = match draft_target(&draft.root, "pipeline") {
        Ok(p) => p,
        Err(r) => panic!("refused: {}", r.text),
    };
    assert_eq!(path, "/ws/.tome/flows/pipeline.flow.json");

    let first = draft_written(true, "pipeline", &path, 2, 1, &vec![]);
    assert!(first.text.starts_with("Created \"pipeline\" (2 nodes, 1 edges)"), "{}", first.text);
    assert_eq!(first.open_path, Some(path.clone()));

    let second = draft_written(false, "pipeline", &path, 2, 1, &vec![]);
    assert!(second.text.starts_with("Updated"), "{}", second.text);
    assert!(second.open_path.is_none());
}

#[test]
fn writes_despite_contract_warnings_and_returns_them() {
    let warnings = vec!["node \"Researcher\" has unknown kind \"mystery-cli\"".to_string()];
    let r = draft_written(true, "warned", "/ws/.tome/flows/warned.flow.json", 2, 1, &warnings);
    assert!(r.text.starts_with("Created"));
    assert!(r.text.to_lowercase().contains("warnings to raise with the user"));
    assert!(r.text.contains("unknown kind \"mystery-cli\""));
}

#[test]
fn a_draft_that_cannot_be_written_says_why() {
    assert_eq!(draft_failed("x", DraftFailure::Escapes).text, "Flow name \"x\" escapes the workspace folder.");
    assert_eq!(draft_failed("x", DraftFailure::NoFolder).text, "could not create .tome/flows for \"x\".");
    assert_eq!(draft_failed("x", DraftFailure::NotWritten).text, "could not write \"x\".");
}

#[test]
fn defaults_version_and_lays_out_coordinate_less_nodes_left_to_right() {
    let flow = object(vec![
        entry("nodes", array(vec![node("n1", "Researcher"), node("n2", "Writer")])),
        entry("edges", array(vec![edge("n1", "n2")])),
    ]);
    let draft = match draft_flow_tool(&roots(), Some("/ws"), Some("laid-out"), Some(flow)) {
        Ok(d) => d,
        Err(r) => panic!("refused: {}", r.text),
    };
    assert!(matches!(lookup(&draft.doc, "version"), Some(Json::Number(n)) if n == "1"));

    let mut nodes = vec![node("n1", "Researcher"), node("n2", "Writer"), node("n3", "Reader")];
    auto_layout(&mut nodes, &vec![edge("n1", "n2"), edge("n1", "n3")]);
    assert_eq!(place(&nodes[0]), ("40".to_string(), "40".to_string()));
    assert_eq!(place(&nodes[1]), ("340".to_string(), "40".to_string()));
    assert_eq!(place(&nodes[2]), ("340".to_string(), "210".to_string()));
}

fn place(n: &Json) -> (String, String) {
    match n {
        Json::Object(o) => match (lookup(o, "x"), lookup(o, "y")) {
            (Some(Json::Number(x)), Some(Json::Number(y))) => (x.clone(), y.clone()),
            _ => panic!("the node has no coordinates"),
        },
        _ => panic!("the node is no object"),
    }
}

#[test]
fn leaves_hand_placed_coordinates_alone() {
    let placed = object(vec![entry("id", text("n1")), entry("x", number("7")), entry("y", number("9"))]);
    let mut nodes = vec![placed, node("n2", "Writer")];
    auto_layout(&mut nodes, &vec![edge("n1", "n2")]);
    assert_eq!(place(&nodes[0]), ("7".to_string(), "9".to_string()));
    assert_eq!(place(&nodes[1]).0, "340");
    assert_eq!(text_of(&nodes[1], "id").map(|s| s.as_str()), Some("n2"));
}

#[test]
fn a_node_stands_behind_the_longest_way_to_it() {
    let mut nodes = vec![node("d", "D"), node("c", "C"), node("b", "B"), node("a", "A")];
    auto_layout(&mut nodes, &vec![edge("c", "d"), edge("a", "d"), edge("b", "c"), edge("a", "b")]);
    let xs: Vec<String> = nodes.iter().map(|n| place(n).0).collect();
    assert_eq!(xs, ["940", "640", "340", "40"]);
}

#[test]
fn no_two_nodes_are_laid_on_each_other() {
    let mut nodes: Vec<Json> = ["a", "b", "c", "a", "d"].iter().map(|id| node(id, "N")).collect();
    auto_layout(&mut nodes, &vec![edge("a", "b"), edge("c", "d"), edge("d", "c")]);
    for i in 0..nodes.len() {
        for j in 0..i {
            assert_ne!(place(&nodes[i]), place(&nodes[j]));
        }
    }
}

#[test]
fn a_cycle_is_laid_out_all_the_same() {
    let mut nodes = vec![node("a", "A"), node("b", "B")];
    auto_layout(&mut nodes, &vec![edge("a", "b"), edge("b", "a")]);
    assert_ne!(place(&nodes[0]), place(&nodes[1]));
}

// ---- reading ----

fn answer(r: ReadFlow) -> String {
    match r {
        ReadFlow::Answer(a) => a,
        _ => panic!("there should have been an answer"),
    }
}

#[test]
fn read_refuses_until_a_workspace_folder_is_open() {
    assert!(answer(read_flow_tool(&vec![], None, None)).to_lowercase().contains("workspace folder"));
}

#[test]
fn read_lists_nothing_gracefully_then_lists_what_draft_flow_wrote() {
    match read_flow_tool(&roots(), None, None) {
        ReadFlow::List(v) => assert_eq!(v, roots()),
        _ => panic!("the flows are listed"),
    }
    assert_eq!(list_reply(&vec![]), "No flows exist yet.");
    let mut found = vec![];
    list_names(&mut found, "/ws", false, &vec!["alpha.flow.json".to_string(), "beta.flow.json".to_string()]);
    let listed = list_reply(&found);
    let mut names: Vec<&str> = listed.split('\n').collect();
    names.sort_unstable();
    assert_eq!(names, vec!["alpha", "beta"]);
}

#[test]
fn read_returns_the_raw_document_text_by_name_and_a_hint_on_a_miss() {
    match read_flow_tool(&roots(), None, Some("alpha")) {
        ReadFlow::Look(v) => {
            assert_eq!(v, vec![("/ws".to_string(), "/ws/.tome/flows/alpha.flow.json".to_string())]);
        },
        _ => panic!("the file is looked for"),
    }
    assert!(read_miss("ghost").contains("No flow named \"ghost\""));
}

#[test]
fn read_applies_the_same_name_guard_as_draft() {
    let said = answer(read_flow_tool(&vec!["/tmp".to_string()], None, Some("../etc")));
    assert!(said.to_lowercase().contains("name"));
}

#[test]
fn read_only_reads_flow_json_entries() {
    let mut found = vec![];
    list_names(&mut found, "/ws", false, &vec!["notes.txt".to_string(), "alpha.flow.json".to_string()]);
    assert_eq!(list_reply(&found), "alpha");
}

#[test]
fn several_roots_are_searched_in_turn() {
    let two = vec!["/one".to_string(), "/two".to_string()];
    match read_flow_tool(&two, None, Some("a")) {
        ReadFlow::Look(v) => {
            assert_eq!(v.len(), 2);
            assert_eq!(v[1].1, "/two/.tome/flows/a.flow.json");
        },
        _ => panic!("the file is looked for"),
    }
    match read_flow_tool(&two, Some("/two"), Some("a")) {
        ReadFlow::Look(v) => assert_eq!(v.len(), 1),
        _ => panic!("the file is looked for"),
    }
    let mut found = vec![];
    list_names(&mut found, "/two", true, &vec!["a.flow.json".to_string()]);
    assert_eq!(found.len(), 1);
    assert!(found[0].contains("/two") && found[0].contains('a'));
}

// ---- names and roots ----

#[test]
fn names_that_could_leave_the_folder_are_refused() {
    assert!(unsafe_folder_name("a/b") && unsafe_folder_name("a\\b") && unsafe_folder_name(".."));
    assert!(!unsafe_folder_name("a.b") && !unsafe_folder_name("..."));
    assert_eq!(bad_name("fine name"), None);
    assert_eq!(bad_name("a/b"), Some("Flow name \"a/b\" can't contain \"/\", \"\\\", or be \"..\".".to_string()));
    assert_eq!(bad_name("\t "), Some("Flow name must be a non-empty string.".to_string()));
}

#[test]
fn a_good_name_is_one_file() {
    assert_eq!(flows_dir("/ws"), "/ws/.tome/flows");
    assert_eq!(flow_path("/ws", "x"), Some("/ws/.tome/flows/x.flow.json".to_string()));
    assert_eq!(flow_path("/ws", "/etc/x"), None);
    match draft_target("/ws", "/etc/x") {
        Err(r) => assert_eq!(r.text, "Flow name \"/etc/x\" does not resolve inside .tome/flows."),
        Ok(_) => panic!("the file lies outside"),
    }
}

#[test]
fn the_first_root_is_taken_where_none_is_asked_for() {
    let two = vec!["/one".to_string(), "/two".to_string()];
    assert!(matches!(pick_root(&two, None), PickedRoot::Root("/one")));
    assert!(matches!(pick_root(&two, Some("/two")), PickedRoot::Root("/two")));
    assert!(matches!(pick_root(&two, Some("/three")), PickedRoot::Error(e) if e == "Unknown root. Open workspace folders: /one, /two"));
}

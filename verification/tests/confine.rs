use tome::flow::confine::{confine_real_abs, parent_of, probes, write_probes};
use tome::paths::{can_open_flow, is_absolute, join_path, lexical_resolve, lexically_inside, path_starts_with};

fn list(v: &[&str]) -> Vec<String> {
    v.iter().map(|s| s.to_string()).collect()
}

// ---- where a path really lies ----

#[test]
fn sync_returns_the_lexical_path_unchanged_for_an_ordinary_path_inside_root() {
    let full = "/ws/a.flow.json";
    assert_eq!(confine_real_abs("/ws", full, Some("/ws"), Some("/ws")), Some(full.to_string()));
}

#[test]
fn must_exist_true_follows_a_symlinked_file_outside_root_and_rejects_it() {
    assert_eq!(probes("/ws/link", true), list(&["/ws/link"]));
    assert_eq!(confine_real_abs("/ws", "/ws/link", Some("/ws"), Some("/outside/file")), None);
}

#[test]
fn must_exist_false_walks_up_and_rejects_a_symlinked_ancestor() {
    assert_eq!(probes("/ws/flows/new/x", false), list(&["/ws/flows/new", "/ws/flows", "/ws", "/"]));
    assert_eq!(confine_real_abs("/ws", "/ws/flows/new/x", Some("/ws"), Some("/outside")), None);
}

#[test]
fn must_exist_false_accepts_a_not_yet_created_path_with_a_real_ancestor() {
    assert_eq!(
        confine_real_abs("/ws", "/ws/not/yet/there", Some("/private/ws"), Some("/private/ws")),
        Some("/ws/not/yet/there".to_string())
    );
}

#[test]
fn rejects_a_path_not_even_lexically_inside_root_and_root_itself_does_not_count() {
    assert_eq!(confine_real_abs("/ws", "/other/a", Some("/ws"), Some("/ws")), None);
    assert_eq!(confine_real_abs("/ws", "/ws", Some("/ws"), Some("/ws")), None);
    assert_eq!(confine_real_abs("/ws", "/ws-two/a", Some("/ws"), Some("/ws")), None);
}

#[test]
fn rejects_a_root_that_does_not_exist_at_all() {
    assert_eq!(confine_real_abs("/nope", "/nope/a", None, Some("/")), None);
    assert_eq!(confine_real_abs("/ws", "/ws/a", Some("/ws"), None), None);
}

#[test]
fn a_flow_file_that_is_a_link_out_is_never_written() {
    let file = "/ws/.tome/flows/x.flow.json";
    assert_eq!(write_probes(file, true), list(&[file]));
    assert_eq!(confine_real_abs("/ws", file, Some("/ws"), Some("/outside/t")), None);
    assert_eq!(confine_real_abs("/ws", file, Some("/ws"), None), None);
    assert_eq!(confine_real_abs("/ws", file, Some("/ws"), Some(file)), Some(file.to_string()));
    assert_eq!(write_probes(file, false), list(&["/ws/.tome/flows", "/ws/.tome", "/ws", "/"]));
}

#[test]
fn parents_are_spelled_out() {
    assert_eq!(parent_of("/a/b"), Some("/a".to_string()));
    assert_eq!(parent_of("/a"), Some("/".to_string()));
    assert_eq!(parent_of("/"), None);
    assert_eq!(parent_of("a"), Some("".to_string()));
    assert_eq!(parent_of(""), None);
}

// ---- spelling ----

#[test]
fn paths_are_compared_by_their_parts() {
    assert!(path_starts_with("/a/b/c", "/a/b"));
    assert!(path_starts_with("/a//b/./c", "/a/b/"));
    assert!(!path_starts_with("/a/bc", "/a/b"));
    assert!(!path_starts_with("a/b", "/a"));
    assert!(lexically_inside("/ws", "/ws/a"));
    assert!(!lexically_inside("/ws", "/ws"));
    assert!(!lexically_inside("", "/ws"));
}

#[test]
fn joining_and_resolving() {
    assert!(is_absolute("/a") && !is_absolute("a"));
    assert_eq!(join_path("/a", "b"), "/a/b");
    assert_eq!(join_path("/a/", "b"), "/a/b");
    assert_eq!(join_path("/a", "/b"), "/b");
    assert_eq!(join_path("", "b"), "b");
    assert_eq!(lexical_resolve("../x/./y", "/a/b"), "/a/x/y");
    assert_eq!(lexical_resolve("/../..", "/a"), "/");
}

#[test]
fn a_flow_opens_only_inside_a_reported_folder() {
    let folders = list(&["/ws"]);
    assert!(can_open_flow(true, &folders, "/ws/.tome/flows/a.flow.json", "/"));
    assert!(can_open_flow(true, &folders, "a.flow.json", "/ws"));
    assert!(!can_open_flow(false, &folders, "/ws/a.flow.json", "/"));
    assert!(!can_open_flow(true, &folders, "/ws/../etc/passwd", "/"));
    assert!(!can_open_flow(true, &folders, "", "/ws"));
    assert!(!can_open_flow(true, &vec![], "/ws/a", "/"));
}

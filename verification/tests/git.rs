use tome::git::{
    args_for, branches, checkout, commit, commit_create, commit_files, diff, git_result, info, log, push, stage, status, CommitStep,
    DiffStep, GitCall, GitOutcome, GitReply, GitStep,
};

fn text(s: &str) -> String {
    s.to_string()
}

fn words(v: &[&str]) -> Vec<String> {
    v.iter().map(|s| s.to_string()).collect()
}

fn exited(success: bool, stdout: &str, stderr: &str) -> GitOutcome {
    GitOutcome::Exited { success, stdout: text(stdout), stderr: text(stderr), status: text("exit status: 128") }
}

fn call(step: GitStep) -> Vec<String> {
    match step {
        GitStep::Run(c) => args_for(&c),
        GitStep::Reply(_) => panic!("there is a call to make first"),
    }
}

fn reply(step: GitStep) -> GitReply {
    match step {
        GitStep::Reply(r) => r,
        GitStep::Run(_) => panic!("there should have been an answer"),
    }
}

// ---- one call ----

#[test]
fn git_helper_prefers_stderr_and_never_panics_on_a_bad_dir() {
    let args = args_for(&GitCall::Branch);
    let err = git_result(&args, exited(false, "", "fatal: not a git repository\n")).unwrap_err();
    assert_eq!(err, "fatal: not a git repository");
    let err = git_result(&args, exited(false, "", "  \n")).unwrap_err();
    assert_eq!(err, "git rev-parse --abbrev-ref HEAD exited with exit status: 128");
    assert_eq!(git_result(&args, GitOutcome::Failed(text("No such file"))), Err(text("No such file")));
    assert_eq!(git_result(&args, GitOutcome::TimedOut), Err(text("git rev-parse --abbrev-ref HEAD timed out")));
    assert_eq!(git_result(&args, exited(true, "main\n", "warning")), Ok(text("main\n")));
}

#[test]
fn checkout_switches_branch_and_reports_ok_true() {
    assert_eq!(call(checkout("new-branch", true, None)), words(&["checkout", "-b", "new-branch"]));
    let r = reply(checkout("new-branch", true, Some(Ok(String::new()))));
    assert!(r.ok && r.error.is_none() && r.hash.is_none());
}

#[test]
fn checkout_reports_ok_false_with_error_for_a_missing_branch() {
    let args = call(checkout("does-not-exist", false, None));
    assert_eq!(args, words(&["checkout", "does-not-exist"]));
    let went = git_result(&args, exited(false, "", "error: pathspec 'does-not-exist'"));
    let r = reply(checkout("does-not-exist", false, Some(went)));
    assert!(!r.ok);
    assert_eq!(r.error, Some(text("error: pathspec 'does-not-exist'")));
}

// ---- the state of a checkout ----

#[test]
fn info_reports_repo_true_with_status_counts() {
    let r = info(Ok(text("main\n")), Ok(text(" M a.txt\n?? b.txt\n")), Err(text("no upstream"))).unwrap();
    assert_eq!(r.branch, "main");
    assert_eq!(r.modified, 1);
    assert_eq!(r.added, 1);
    assert_eq!(r.deleted, 0);
    assert_eq!((r.ahead, r.behind), (0, 0));
}

#[test]
fn info_reports_repo_false_outside_a_repo() {
    assert!(info(Err(text("fatal")), Ok(String::new()), Ok(String::new())).is_none());
    assert!(info(Ok(text("main")), Err(text("fatal")), Ok(String::new())).is_none());
}

#[test]
fn every_change_is_counted_once() {
    let out = "A  new\nAD gone\nD  old\n D lost\nMM both\nR  a -> b\n";
    let r = info(Ok(text("main")), Ok(text(out)), Ok(text("2\t5\n"))).unwrap();
    assert_eq!((r.added, r.deleted, r.modified), (2, 2, 2));
    assert_eq!((r.behind, r.ahead), (2, 5));
    let r = info(Ok(text("main")), Ok(String::new()), Ok(text("x y"))).unwrap();
    assert_eq!((r.behind, r.ahead), (0, 0));
}

#[test]
fn branches_lists_and_filters_blank_lines() {
    let list = branches("main\n\nfeature-a\n");
    assert!(list.contains(&text("main")));
    assert!(list.contains(&text("feature-a")));
    assert!(list.iter().all(|s| !s.is_empty()));
    assert_eq!(list.len(), 2);
}

#[test]
fn status_lists_modified_untracked_and_staged_files() {
    let files = status(" M a.txt\nA  b.txt\n?? é x.txt\n");
    assert_eq!(files.len(), 3);
    assert_eq!((files[0].x.as_str(), files[0].y.as_str(), files[0].path.as_str()), (" ", "M", "a.txt"));
    assert_eq!((files[1].x.as_str(), files[1].path.as_str()), ("A", "b.txt"));
    assert_eq!((files[2].x.as_str(), files[2].y.as_str(), files[2].path.as_str()), ("?", "?", "é x.txt"));
}

// ---- the past ----

#[test]
fn log_returns_newest_first_with_expected_fields() {
    let out = "abc123\u{1f}abc\u{1f}Test\u{1f}2026-01-02 03:04\u{1f}HEAD -> main, tag: v1\u{1f}second\ndef456\u{1f}def\u{1f}Test\u{1f}2026-01-01 03:04\u{1f}\u{1f}first";
    let list = log(out);
    assert_eq!(list.len(), 2);
    assert_eq!(list[0].subject, "second");
    assert_eq!(list[1].subject, "first");
    assert_eq!(list[0].hash, "abc123");
    assert_eq!(list[0].short, "abc");
    assert_eq!(list[0].author, "Test");
    assert_eq!(list[0].date, "2026-01-02 03:04");
    assert_eq!(list[0].refs, words(&["HEAD -> main", "tag: v1"]));
    assert!(list[1].refs.is_empty());
    assert_eq!(log("short")[0].subject, "");
}

#[test]
fn log_zero_limit_is_falsy_and_defaults_to_250() {
    assert_eq!(args_for(&GitCall::Log { limit: Some(2) })[1], "-2");
    assert_eq!(args_for(&GitCall::Log { limit: Some(0) })[1], "-250");
    assert_eq!(args_for(&GitCall::Log { limit: None })[1], "-250");
}

#[test]
fn commit_reports_body_and_changed_files_for_a_normal_commit() {
    let ok = |s: &str| Some(Ok(text(s)));
    match commit("abc", None, None, None) {
        CommitStep::Run(c) => assert_eq!(args_for(&c), words(&["show", "-s", "--format=%B", "abc"])),
        _ => panic!("the message is asked for first"),
    }
    match commit("abc", ok("second commit\n"), None, None) {
        CommitStep::Run(c) => assert_eq!(args_for(&c), words(&["diff", "--name-status", "-M", "abc^", "abc"])),
        _ => panic!("the files are asked for next"),
    }
    match commit("abc", ok("second commit\n\nwith a body\n\n"), ok("M\ta.txt\n"), None) {
        CommitStep::Done { body, files } => {
            assert_eq!(body, "second commit\n\nwith a body");
            assert_eq!(files.len(), 1);
            assert_eq!((files[0].status.as_str(), files[0].path.as_str()), ("M", "a.txt"));
        },
        _ => panic!("everything is known"),
    }
    assert!(matches!(commit("abc", Some(Err(text("bad object"))), None, None), CommitStep::Fail(e) if e == "bad object"));
    let files = commit_files("M\ta.txt\nR100\told.txt\tnew.txt\n");
    assert_eq!((files[1].status.as_str(), files[1].path.as_str()), ("R", "new.txt"));
}

#[test]
fn commit_falls_back_to_diff_tree_for_the_root_commit() {
    let message = || Some(Ok(text("root commit\n")));
    let failed = || Some(Err(text("unknown revision abc^")));
    match commit("abc", message(), failed(), None) {
        CommitStep::Run(c) => {
            assert_eq!(args_for(&c), words(&["diff-tree", "--no-commit-id", "--name-status", "-r", "-M", "--root", "abc"]));
        },
        _ => panic!("all files are asked for"),
    }
    match commit("abc", message(), failed(), Some(Ok(text("A\ta.txt\n")))) {
        CommitStep::Done { files, .. } => {
            assert_eq!(files.len(), 1);
            assert_eq!((files[0].status.as_str(), files[0].path.as_str()), ("A", "a.txt"));
        },
        _ => panic!("everything is known"),
    }
    assert!(matches!(commit("abc", message(), failed(), Some(Err(text("gone")))), CommitStep::Fail(e) if e == "gone"));
}

#[test]
fn diff_returns_patch_text_for_a_normal_commit() {
    match diff("abc", "-a.txt", None, None) {
        DiffStep::Run(c) => assert_eq!(args_for(&c), words(&["diff", "abc^", "abc", "--", "-a.txt"])),
        _ => panic!("the changes are asked for"),
    }
    assert!(matches!(diff("abc", "a.txt", Some(Ok(text("-1\n+2\n"))), None), DiffStep::Done(t) if t == "-1\n+2\n"));
}

#[test]
fn diff_falls_back_to_show_for_the_root_commit() {
    let failed = || Some(Err(text("unknown revision abc^")));
    match diff("abc", "-a.txt", failed(), None) {
        DiffStep::Run(c) => assert_eq!(args_for(&c), words(&["show", "--format=", "abc", "--", "-a.txt"])),
        _ => panic!("the whole commit is asked for"),
    }
    assert!(matches!(diff("abc", "a.txt", failed(), Some(Ok(text("a.txt")))), DiffStep::Done(t) if t == "a.txt"));
    assert!(matches!(diff("abc", "a.txt", failed(), Some(Err(text("gone")))), DiffStep::Fail(e) if e == "gone"));
}

// ---- changing things ----

#[test]
fn stage_adds_an_untracked_file() {
    assert_eq!(call(stage(None, None)), words(&["add", "-A"]));
    assert_eq!(call(stage(Some(vec![]), None)), words(&["add", "-A"]));
    assert_eq!(call(stage(Some(words(&["b.txt", "-c"])), None)), words(&["add", "--", "b.txt", "-c"]));
    assert!(reply(stage(None, Some(Ok(String::new())))).ok);
}

#[test]
fn commit_create_makes_a_commit_and_returns_hash() {
    let made = || Some(Ok(String::new()));
    assert_eq!(call(commit_create("hello", None, None)), words(&["commit", "-m", "hello"]));
    assert_eq!(call(commit_create("hello", made(), None)), words(&["rev-parse", "HEAD"]));
    let r = reply(commit_create("hello", made(), Some(Ok(text("abc123\n")))));
    assert!(r.ok && r.error.is_none());
    assert_eq!(r.hash, Some(text("abc123")));
}

#[test]
fn commit_create_reports_ok_false_with_no_staged_changes() {
    let r = reply(commit_create("msg", Some(Err(text("nothing to commit"))), None));
    assert!(!r.ok);
    assert_eq!(r.error, Some(text("nothing to commit")));
    let r = reply(commit_create("msg", Some(Ok(String::new())), Some(Err(text("no head")))));
    assert!(!r.ok && r.hash.is_none());
    assert_eq!(r.error, Some(text("no head")));
}

#[test]
fn push_reports_ok_false_without_a_remote() {
    let args = call(push(None));
    assert_eq!(args, words(&["push"]));
    let r = reply(push(Some(git_result(&args, exited(false, "", "fatal: No configured push destination.")))));
    assert!(!r.ok);
    assert_eq!(r.error, Some(text("fatal: No configured push destination.")));
}

use tome::auth::ReauthStep;
use tome::flow::launch::SandboxWrap;
use tome::pane::{pane_sandbox, pty_create, PaneFacts, PaneStep};
use tome::pty::{HostOs, SandboxStrategy};

fn facts(gapped: bool, host_os: HostOs) -> PaneFacts {
    PaneFacts {
        known_kind: true,
        gapped,
        reauth: ReauthStep::Cleared,
        host_os,
        strategy: SandboxStrategy::Bwrap,
        socket: None,
        socket_dir: None,
        shim: None,
        proxy: None,
        wrap: None,
        spawned: None,
    }
}

#[test]
fn an_unknown_kind_brings_nothing_up() {
    let mut f = facts(true, HostOs::Other);
    f.known_kind = false;
    assert!(matches!(pty_create(&f), PaneStep::Ignore));
}

#[test]
fn an_open_pane_meets_the_ceremony_first() {
    let mut f = facts(false, HostOs::Linux);
    f.reauth = ReauthStep::Ask(None);
    assert!(matches!(pty_create(&f), PaneStep::Reauth(ReauthStep::Ask(None))));
    f.reauth = ReauthStep::Cleared;
    assert!(matches!(pty_create(&f), PaneStep::Spawn));
    f.spawned = Some(None);
    assert!(matches!(pty_create(&f), PaneStep::Register));
}

#[test]
fn a_gapped_pane_meets_no_ceremony() {
    let mut f = facts(true, HostOs::MacOs);
    f.reauth = ReauthStep::Reject;
    assert!(matches!(pty_create(&f), PaneStep::OpenProxy));
    f.proxy = Some(Ok(4100));
    assert!(matches!(pty_create(&f), PaneStep::Spawn));
}

#[test]
fn a_pane_is_refused_where_nothing_enforces_it() {
    match pty_create(&facts(true, HostOs::Other)) {
        PaneStep::Fail { error, blocked, close } => {
            assert!(error.contains("refusing to spawn unenforced"));
            assert_eq!(blocked.as_deref(), Some("gapped panes are only supported on macOS and Linux"));
            assert!(!close);
        },
        _ => panic!("nothing enforces the gap here"),
    }
    let mut f = facts(true, HostOs::Linux);
    f.strategy = SandboxStrategy::Refuse { reason: "no bwrap".to_string() };
    assert!(matches!(pty_create(&f), PaneStep::Fail { error, blocked: Some(b), close: false } if error == "no bwrap" && b == "no bwrap"));
}

fn failure(f: &PaneFacts) -> (String, bool) {
    match pty_create(f) {
        PaneStep::Fail { error, close, .. } => (error, close),
        _ => panic!("the pane should have failed"),
    }
}

#[test]
fn a_pane_on_linux_comes_up_step_by_step() {
    let mut f = facts(true, HostOs::Linux);
    assert!(matches!(pty_create(&f), PaneStep::FindSocket));
    f.socket = Some(None);
    assert!(failure(&f).0.contains("socket path component"));
    f.socket = Some(Some("/run/pane.sock".to_string()));
    assert!(matches!(pty_create(&f), PaneStep::MakeSocketDir));
    f.socket_dir = Some(Some("denied".to_string()));
    assert_eq!(failure(&f), ("denied".to_string(), false));
    f.socket_dir = Some(None);
    assert!(matches!(pty_create(&f), PaneStep::FindShim));
    f.shim = Some(Err("missing".to_string()));
    assert_eq!(failure(&f), ("missing".to_string(), false));
    f.shim = Some(Ok("/bin/shim".to_string()));
    assert!(matches!(pty_create(&f), PaneStep::OpenProxy));
    f.proxy = Some(Err("no port".to_string()));
    assert_eq!(failure(&f), ("no port".to_string(), false));
    f.proxy = Some(Ok(4100));
    assert!(matches!(pty_create(&f), PaneStep::BuildWrap));
    f.wrap = Some(Err("bad wrap".to_string()));
    assert_eq!(failure(&f), ("bad wrap".to_string(), true));
    f.wrap = Some(Ok(vec!["bwrap".to_string()]));
    assert!(matches!(pty_create(&f), PaneStep::Spawn));
    f.spawned = Some(Some("fork".to_string()));
    assert_eq!(failure(&f), ("fork".to_string(), true));
    f.spawned = Some(None);
    assert!(matches!(pty_create(&f), PaneStep::Register));
}

#[test]
fn a_gapped_pane_is_spawned_in_its_sandbox() {
    let mut f = facts(true, HostOs::MacOs);
    f.proxy = Some(Ok(4100));
    match pane_sandbox(&f, "(profile)") {
        Some(SandboxWrap::Prefix { cmd, args }) => {
            assert_eq!(cmd, "/usr/bin/sandbox-exec");
            assert_eq!(args, vec!["-p".to_string(), "(profile)".to_string()]);
        },
        _ => panic!("a gapped pane is sandboxed"),
    }
    let mut f = facts(true, HostOs::Linux);
    f.socket = Some(Some("/run/s".to_string()));
    f.socket_dir = Some(None);
    f.shim = Some(Ok("/bin/shim".to_string()));
    f.proxy = Some(Ok(4100));
    f.wrap = Some(Ok(vec!["bwrap".to_string(), "--".to_string()]));
    assert!(matches!(pane_sandbox(&f, ""), Some(SandboxWrap::Full { argv }) if argv == ["bwrap", "--"]));
    assert!(pane_sandbox(&facts(false, HostOs::Linux), "").is_none());
}

use portable_pty::CommandBuilder;
use tome::agent_env::AgentEnvExtras;
use tome::auth::{evaluate_reauth, unrestricted_spawn_needs_reauth, ReauthOutcome};
use tome::flow::launch::SandboxWrap;
use tome::json::Json;
use tome::paths::{can_open_flow, lexical_resolve, lexically_inside, path_starts_with};
use tome::pty::{
    build_linux_wrap_argv, build_pty_command, effective_gap, gap_by_default, is_agent_kind, known_kind, login_shell_argv, pane_env, path_entries,
    resolve_brain_env, resolve_core_vault_root, resolve_gapped_spawn, resolve_shim_path, sandbox_wrap, shim_path_in, AgentEntry,
    GappedSpawnDecision, HostOs, SandboxStrategy,
};
use tome::strmap::StrMap;

fn strings(v: &[&str]) -> Vec<String> {
    v.iter().map(|s| s.to_string()).collect()
}

fn argv_of(cmd: &CommandBuilder) -> Vec<String> {
    cmd.get_argv().iter().map(|s| s.to_string_lossy().into_owned()).collect()
}

// ---- agents ----

const BUILTIN: [&str; 3] = ["codex", "gemini", "opencode"];

fn builtins_only() -> Vec<AgentEntry> {
    BUILTIN.iter().map(|n| AgentEntry { id: n.to_string(), bin: n.to_string(), custom: false }).collect()
}

#[test]
fn is_agent_kind_true_for_every_builtin() {
    let agents = builtins_only();
    for kind in BUILTIN {
        assert!(is_agent_kind(&agents, kind), "{kind} should be an agent kind");
    }
}

#[test]
fn is_agent_kind_true_for_a_vetted_custom_agent() {
    let mut agents = builtins_only();
    agents.push(AgentEntry { id: "aider".to_string(), bin: "aider".to_string(), custom: true });
    assert!(is_agent_kind(&agents, "aider"));
}

#[test]
fn is_agent_kind_false_for_a_plain_terminal() {
    assert!(!is_agent_kind(&builtins_only(), "terminal"));
}

#[test]
fn is_agent_kind_false_for_an_unrecognized_kind() {
    assert!(!is_agent_kind(&builtins_only(), "some-unknown-kind"));
}

#[test]
fn is_agent_kind_false_for_a_custom_id_that_was_never_vetted_in() {
    assert!(!is_agent_kind(&builtins_only(), "aider"));
}

#[test]
fn is_agent_kind_false_for_a_custom_that_failed_vetting() {
    assert!(!is_agent_kind(&builtins_only(), "evil"));
}

// ---- vaults ----

#[test]
fn resolve_core_vault_root_returns_the_root_when_configured() {
    assert_eq!(resolve_core_vault_root(Some("/vaults/core"), true), Some("/vaults/core".to_string()));
}

#[test]
fn resolve_core_vault_root_is_none_when_no_core_vault_is_stored() {
    assert_eq!(resolve_core_vault_root(None, true), None);
    assert_eq!(resolve_core_vault_root(None, false), None);
}

#[test]
fn resolve_core_vault_root_is_none_for_an_empty_or_unreadable_root() {
    assert_eq!(resolve_core_vault_root(Some(""), true), None);
    assert_eq!(resolve_core_vault_root(Some("/definitely/does/not/exist/core-vault-xyz"), false), None);
}

#[test]
fn brain_env_fails_with_the_vault_and_holds_the_core_one_where_it_is_stored() {
    let stored = Json::Text("/vaults/core".to_string());
    assert_eq!(
        resolve_brain_env(Ok("/home/x/.tome/brain".to_string()), &stored, true),
        Ok((Some("/home/x/.tome/brain".to_string()), Some("/vaults/core".to_string())))
    );
    assert_eq!(
        resolve_brain_env(Ok("/home/x/.tome/brain".to_string()), &Json::Null, true),
        Ok((Some("/home/x/.tome/brain".to_string()), None))
    );
    assert_eq!(resolve_brain_env(Err("no room".to_string()), &stored, true), Err("no room".to_string()));
}

// ---- the environment ----

fn allowed() -> Vec<String> {
    strings(&["PATH", "HOME", "USER", "SHELL", "LANG"])
}

fn value_of(env: &[(String, String)], name: &str) -> Option<String> {
    env.iter().find(|(k, _)| k == name).map(|(_, v)| v.clone())
}

#[test]
fn pane_env_overrides_path_with_the_login_shell_value() {
    let mut process_env = StrMap::new();
    process_env.set("PATH", "/usr/bin:/bin".to_string());
    process_env.set("HOME", "/Users/tester".to_string());
    let harvested = "/usr/bin:/bin:/opt/homebrew/bin:/Users/tester/.local/bin";
    let env = pane_env(process_env, harvested, &allowed(), &AgentEnvExtras::default());
    assert_eq!(value_of(&env, "PATH").as_deref(), Some(harvested));
    assert_eq!(value_of(&env, "HOME").as_deref(), Some("/Users/tester"));
    assert_eq!(env.iter().filter(|(k, _)| k == "PATH").count(), 1);
}

#[test]
fn pane_env_never_carries_a_provider_secret_for_a_plain_terminal() {
    let mut process_env = StrMap::new();
    process_env.set("ANTHROPIC_API_KEY", "sk-ant-should-not-leak".to_string());
    let env = pane_env(process_env, "/usr/bin", &allowed(), &AgentEnvExtras::default());
    assert!(
        env.iter().all(|(k, _)| k != "ANTHROPIC_API_KEY"),
        "pane_env with is_agent:false must never carry a provider credential"
    );
}

#[test]
fn a_plain_terminal_is_not_given_the_keys_it_comes_with() {
    let mut secrets = StrMap::new();
    secrets.set("ANTHROPIC_API_KEY", "sk-ant-x".to_string());
    let extras = AgentEnvExtras { secrets, ..Default::default() };
    let env = pane_env(StrMap::new(), "/usr/bin", &allowed(), &extras);
    assert_eq!(value_of(&env, "ANTHROPIC_API_KEY"), None);
    let names: Vec<&str> = env.iter().map(|(k, _)| k.as_str()).collect();
    assert_eq!(names, ["PATH", "TERM", "COLORTERM"]);
}

#[test]
fn pane_env_carries_secrets_only_when_is_agent_is_set() {
    let mut secrets = StrMap::new();
    secrets.set("ANTHROPIC_API_KEY", "sk-ant-x".to_string());
    let extras = AgentEnvExtras { is_agent: true, secrets, ..Default::default() };
    let env = pane_env(StrMap::new(), "/usr/bin", &allowed(), &extras);
    assert_eq!(value_of(&env, "ANTHROPIC_API_KEY").as_deref(), Some("sk-ant-x"));
}

#[test]
fn pane_env_carries_proxy_vars_only_when_gapped() {
    let extras = AgentEnvExtras { proxy_port: Some(54321), ..Default::default() };
    let env = pane_env(StrMap::new(), "/usr/bin", &allowed(), &extras);
    assert_eq!(value_of(&env, "HTTP_PROXY").as_deref(), Some("http://127.0.0.1:54321"));
    let ungapped = pane_env(StrMap::new(), "/usr/bin", &allowed(), &AgentEnvExtras::default());
    assert!(ungapped.iter().all(|(k, _)| k != "HTTP_PROXY"));
}

#[test]
fn every_proxy_variable_of_a_gapped_pane_names_its_proxy() {
    let mut process_env = StrMap::new();
    process_env.set("HTTPS_PROXY", "http://elsewhere:1".to_string());
    let mut secrets = StrMap::new();
    secrets.set("https_proxy", "http://elsewhere:2".to_string());
    let extras = AgentEnvExtras { is_agent: true, secrets, proxy_port: Some(8080), ..Default::default() };
    let env = pane_env(process_env, "/usr/bin", &strings(&["HTTPS_PROXY"]), &extras);
    for name in ["HTTP_PROXY", "HTTPS_PROXY", "http_proxy", "https_proxy"] {
        assert_eq!(value_of(&env, name).as_deref(), Some("http://127.0.0.1:8080"), "{name}");
    }
    for name in ["NO_PROXY", "no_proxy"] {
        assert_eq!(value_of(&env, name).as_deref(), Some("localhost,127.0.0.1"), "{name}");
    }
    assert_eq!(value_of(&env, "PATH"), None);
}

#[test]
fn pane_env_still_sets_the_fixed_term_pair() {
    let env = pane_env(StrMap::new(), "/usr/bin", &allowed(), &AgentEnvExtras::default());
    assert_eq!(value_of(&env, "TERM"), Some("xterm-256color".to_string()));
    assert_eq!(value_of(&env, "COLORTERM"), Some("truecolor".to_string()));
}

#[test]
fn a_pane_of_a_workspace_is_told_of_its_vaults() {
    let extras = AgentEnvExtras {
        brain_path: Some("/home/x/.tome/brain".to_string()),
        core_vault_root: Some("/vaults/core".to_string()),
        ..Default::default()
    };
    let env = pane_env(StrMap::new(), "/usr/bin", &allowed(), &extras);
    assert_eq!(value_of(&env, "TOME_BRAIN").as_deref(), Some("/home/x/.tome/brain"));
    assert_eq!(value_of(&env, "TOME_CORE_VAULT").as_deref(), Some("/vaults/core"));
}

#[test]
fn path_entries_drops_empty_ones() {
    assert_eq!(path_entries("/usr/bin::/bin:"), strings(&["/usr/bin", "/bin"]));
    assert!(path_entries("").is_empty());
}

#[test]
fn the_gap_is_on_unless_switched_off() {
    assert!(gap_by_default(&Json::Null));
    assert!(gap_by_default(&Json::Bool(true)));
    assert!(gap_by_default(&Json::Text("false".to_string())));
    assert!(!gap_by_default(&Json::Bool(false)));
}

#[test]
fn more_isolation_may_be_asked_for_and_never_less() {
    assert!(effective_gap(true, &Json::Bool(false)));
    assert!(effective_gap(false, &Json::Bool(true)));
    assert!(effective_gap(false, &Json::Null));
    assert!(!effective_gap(false, &Json::Bool(false)));
}

#[test]
fn a_terminal_and_every_vetted_agent_can_come_up() {
    let agents = builtins_only();
    assert!(known_kind(&agents, "terminal"));
    assert!(known_kind(&agents, "gemini"));
    assert!(!known_kind(&agents, "sh"));
    assert!(!known_kind(&vec![], "gemini"));
}

// ---- the gap, by system ----

fn refuse_strategy() -> SandboxStrategy {
    SandboxStrategy::Refuse { reason: "install bubblewrap".to_string() }
}

#[test]
fn resolve_gapped_spawn_wraps_in_sandbox_exec_on_macos_regardless_of_linux_strategy() {
    for linux_strategy in [SandboxStrategy::Bwrap, SandboxStrategy::SelfUnshare, refuse_strategy()] {
        match resolve_gapped_spawn(HostOs::MacOs, "(version 1)", linux_strategy) {
            GappedSpawnDecision::Sandbox { cmd, args } => {
                assert_eq!(cmd, "/usr/bin/sandbox-exec");
                assert_eq!(args, strings(&["-p", "(version 1)"]));
            }
            GappedSpawnDecision::Linux(_) => panic!("expected Sandbox on macOS, got Linux(_)"),
            GappedSpawnDecision::RefuseUnsupportedOs => panic!("expected Sandbox on macOS, got RefuseUnsupportedOs"),
        }
    }
}

#[test]
fn resolve_gapped_spawn_passes_the_linux_strategy_through_unchanged_on_linux() {
    assert!(matches!(
        resolve_gapped_spawn(HostOs::Linux, "irrelevant", SandboxStrategy::Bwrap),
        GappedSpawnDecision::Linux(SandboxStrategy::Bwrap)
    ));
    assert!(matches!(
        resolve_gapped_spawn(HostOs::Linux, "irrelevant", SandboxStrategy::SelfUnshare),
        GappedSpawnDecision::Linux(SandboxStrategy::SelfUnshare)
    ));
    assert!(matches!(
        resolve_gapped_spawn(HostOs::Linux, "irrelevant", refuse_strategy()),
        GappedSpawnDecision::Linux(SandboxStrategy::Refuse { reason }) if reason == "install bubblewrap"
    ));
}

#[test]
fn resolve_gapped_spawn_refuses_on_any_os_other_than_macos_or_linux() {
    assert!(matches!(
        resolve_gapped_spawn(HostOs::Other, "irrelevant", refuse_strategy()),
        GappedSpawnDecision::RefuseUnsupportedOs
    ));
    assert!(matches!(
        resolve_gapped_spawn(HostOs::Other, "irrelevant", SandboxStrategy::Bwrap),
        GappedSpawnDecision::RefuseUnsupportedOs
    ));
}

#[test]
fn build_linux_wrap_argv_bwrap_matches_egress_linux_build_bwrap_argv() {
    let bwrap = strings(&["bwrap", "--unshare-net", "--", "/opt/tome/tome-shim"]);
    let unshare = strings(&["/opt/tome/tome-shim", "--self-unshare"]);
    assert_eq!(build_linux_wrap_argv(&SandboxStrategy::Bwrap, &bwrap, &unshare).unwrap(), bwrap);
}

#[test]
fn build_linux_wrap_argv_self_unshare_matches_egress_linux_build_self_unshare_argv() {
    let bwrap = strings(&["bwrap", "--unshare-net", "--", "/opt/tome/tome-shim"]);
    let unshare = strings(&["/opt/tome/tome-shim", "--self-unshare"]);
    assert_eq!(build_linux_wrap_argv(&SandboxStrategy::SelfUnshare, &bwrap, &unshare).unwrap(), unshare);
}

#[test]
fn build_linux_wrap_argv_refuse_returns_the_reason_as_an_error_rather_than_panicking() {
    assert_eq!(
        build_linux_wrap_argv(&refuse_strategy(), &strings(&["bwrap"]), &strings(&["shim"])),
        Err("install bubblewrap".to_string())
    );
}

#[test]
fn sandbox_wrap_follows_the_decision() {
    let bwrap = strings(&["bwrap", "--"]);
    let unshare = strings(&["shim"]);
    let mac = resolve_gapped_spawn(HostOs::MacOs, "P", SandboxStrategy::Bwrap);
    assert!(matches!(sandbox_wrap(&mac, &bwrap, &unshare), Ok(SandboxWrap::Prefix { cmd, args })
        if cmd == "/usr/bin/sandbox-exec" && args == strings(&["-p", "P"])));
    let linux = resolve_gapped_spawn(HostOs::Linux, "P", SandboxStrategy::Bwrap);
    assert!(matches!(sandbox_wrap(&linux, &bwrap, &unshare), Ok(SandboxWrap::Full { argv }) if argv == bwrap));
    let refused = resolve_gapped_spawn(HostOs::Linux, "P", refuse_strategy());
    assert!(matches!(sandbox_wrap(&refused, &bwrap, &unshare), Err(e) if e == "install bubblewrap"));
    let other = resolve_gapped_spawn(HostOs::Other, "P", SandboxStrategy::Bwrap);
    assert!(sandbox_wrap(&other, &bwrap, &unshare).is_err());
}

// ---- command lines ----

#[test]
fn login_shell_argv_is_a_bare_login_shell_with_no_agent_cmd() {
    assert_eq!(login_shell_argv("/bin/zsh", None), strings(&["/bin/zsh", "-l"]));
}

#[test]
fn login_shell_argv_runs_the_agent_command_via_dash_c() {
    assert_eq!(login_shell_argv("/bin/zsh", Some("codex")), strings(&["/bin/zsh", "-l", "-c", "codex"]));
}

#[test]
fn shim_path_in_dev_mode_has_no_target_triple_suffix() {
    assert_eq!(shim_path_in("/app/target/debug", None), "/app/target/debug/tome-shim");
}

#[test]
fn shim_path_in_bundled_mode_appends_the_target_triple() {
    assert_eq!(
        shim_path_in("/usr/lib/tome", Some("x86_64-unknown-linux-gnu")),
        "/usr/lib/tome/tome-shim-x86_64-unknown-linux-gnu"
    );
}

#[test]
fn shim_path_in_appends_the_target_triple_only_when_given() {
    assert_eq!(shim_path_in("/opt/tome", None), "/opt/tome/tome-shim");
    assert_eq!(shim_path_in("/opt/tome", Some("x86_64-unknown-linux-gnu")), "/opt/tome/tome-shim-x86_64-unknown-linux-gnu");
}

#[test]
fn build_pty_command_is_a_bare_login_shell_for_a_terminal_pane() {
    let cmd = build_pty_command("/bin/sh", None, "/tmp", &vec![], &None);
    assert_eq!(argv_of(&cmd), strings(&["/bin/sh", "-l"]));
    assert_eq!(cmd.get_cwd().unwrap().to_string_lossy(), "/tmp");
}

#[test]
fn build_pty_command_runs_the_agent_command_via_dash_c() {
    let cmd = build_pty_command("/bin/zsh", Some("codex"), "/work", &vec![], &None);
    assert_eq!(argv_of(&cmd), strings(&["/bin/zsh", "-l", "-c", "codex"]));
}

#[test]
fn build_pty_command_wraps_the_whole_line_in_sandbox_exec_when_gapped() {
    let sandbox = SandboxWrap::Prefix { cmd: "/usr/bin/sandbox-exec".to_string(), args: strings(&["-p", "PROFILE"]) };
    let cmd = build_pty_command("/bin/zsh", Some("codex"), "/work", &vec![], &Some(sandbox));
    assert_eq!(argv_of(&cmd), strings(&["/usr/bin/sandbox-exec", "-p", "PROFILE", "/bin/zsh", "-l", "-c", "codex"]));
}

#[test]
fn build_pty_command_uses_a_full_linux_argv_verbatim_ignoring_shell_and_agent_cmd() {
    let argv = strings(&["bwrap", "--unshare-user", "--unshare-net", "--", "/opt/tome/tome-shim"]);
    let sandbox = SandboxWrap::Full { argv: argv.clone() };
    let cmd = build_pty_command("/bin/NEVER-USED", Some("also-never-used"), "/work", &vec![], &Some(sandbox));
    assert_eq!(argv_of(&cmd), argv);
}

#[test]
fn build_pty_command_env_is_exactly_what_was_given_not_merged_with_this_process() {
    let env = vec![("PATH".to_string(), "/usr/bin".to_string()), ("HOME".to_string(), "/home/x".to_string())];
    let cmd = build_pty_command("/bin/sh", None, "/tmp", &env, &None);
    assert_eq!(cmd.get_env("PATH").unwrap().to_string_lossy(), "/usr/bin");
    assert_eq!(cmd.get_env("HOME").unwrap().to_string_lossy(), "/home/x");
    assert_eq!(cmd.iter_full_env_as_str().count(), 2);
}

#[test]
fn build_pty_command_keeps_the_last_value_of_a_variable() {
    let env = vec![("A".to_string(), "1".to_string()), ("A".to_string(), "2".to_string())];
    let cmd = build_pty_command("/bin/sh", None, "/tmp", &env, &None);
    assert_eq!(cmd.get_env("A").unwrap().to_string_lossy(), "2");
}

// ---- the ceremony ----

#[test]
fn evaluate_reauth_needs_credentials_when_nothing_was_supplied() {
    assert!(matches!(evaluate_reauth(false, false), ReauthOutcome::NeedsCredentials));
}

#[test]
fn evaluate_reauth_rejects_a_supplied_but_wrong_credential() {
    assert!(matches!(evaluate_reauth(true, false), ReauthOutcome::Rejected));
}

#[test]
fn evaluate_reauth_accepts_a_verified_credential() {
    assert!(matches!(evaluate_reauth(true, true), ReauthOutcome::Verified));
}

#[test]
fn ungapped_spawn_with_configured_auth_needs_the_reauth_ceremony() {
    assert!(unrestricted_spawn_needs_reauth(false, true));
}

#[test]
fn gapped_spawn_never_needs_the_reauth_ceremony_regardless_of_auth_config() {
    assert!(!unrestricted_spawn_needs_reauth(true, true));
    assert!(!unrestricted_spawn_needs_reauth(true, false));
}

// ---- paths ----

#[test]
fn lexical_resolve_normalizes_dot_and_dotdot_without_touching_disk() {
    assert_eq!(lexical_resolve("/a/b/../c", "/"), "/a/c");
    assert_eq!(lexical_resolve("/a/./b", "/"), "/a/b");
    assert_eq!(lexical_resolve("b/../c", "/a"), "/a/c");
    assert_eq!(lexical_resolve("../../..", "/a/b"), "/");
}

#[test]
fn can_open_flow_denies_until_folders_synced() {
    assert!(!can_open_flow(false, &strings(&["/work/proj"]), "/work/proj/x.flow.json", "/"));
}

#[test]
fn can_open_flow_allows_a_path_under_an_open_folder_once_synced() {
    let folders = strings(&["/work/proj"]);
    assert!(can_open_flow(true, &folders, "/work/proj/.tome/flows/x.flow.json", "/"));
    assert!(!can_open_flow(true, &folders, "/elsewhere/x.flow.json", "/"));
    assert!(!can_open_flow(true, &folders, "/work/proj/../x.flow.json", "/"));
    assert!(!can_open_flow(true, &folders, "/work/project/x.flow.json", "/"));
}

#[test]
fn paths_are_compared_component_by_component() {
    assert!(path_starts_with("/a/b//c/./d", "/a/b/c"));
    assert!(!path_starts_with("/a/bc", "/a/b"));
    assert!(lexically_inside("/a/b", "/a/b/c"));
    assert!(!lexically_inside("/a/b", "/a/b/"));
    assert!(!lexically_inside("", "/a"));
}

#[test]
fn the_shim_is_found_beside_the_program() {
    let triple = Ok("x86_64-unknown-linux-gnu".to_string());
    let unknown = Err("no triple".to_string());
    assert_eq!(resolve_shim_path(&Ok("/app/target/debug/tome".to_string()), true, &unknown), Ok("/app/target/debug/tome-shim".to_string()));
    assert_eq!(
        resolve_shim_path(&Ok("/usr/lib/tome/tome".to_string()), false, &triple),
        Ok("/usr/lib/tome/tome-shim-x86_64-unknown-linux-gnu".to_string())
    );
    assert_eq!(
        resolve_shim_path(&Ok("/usr/lib/tome/tome".to_string()), false, &unknown),
        Err("resolve tome-shim sidecar: could not determine this platform's target triple: no triple".to_string())
    );
    assert_eq!(
        resolve_shim_path(&Err("gone".to_string()), true, &triple),
        Err("resolve tome-shim sidecar: could not determine this process's own binary path: gone".to_string())
    );
    assert_eq!(
        resolve_shim_path(&Ok("/".to_string()), true, &triple),
        Err("resolve tome-shim sidecar: this process's own binary path has no parent directory".to_string())
    );
}

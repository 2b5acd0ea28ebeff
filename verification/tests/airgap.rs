use tome::airgap::{
    airgap_consent_repo_allowlist, airgap_setup, airgap_state, airgap_unlock, blocked_fields, effective_allow_patterns,
    recompile_all_proxies, unlock_check, unlock_deadline, ConsentOutcome, GateEffect, Gateway, PaneMode, UnlockCheck,
};
use tome::auth::Answer;
use tome::json::Json;

const MINUTE: i64 = 60_000;

fn default_allow() -> Vec<String> {
    vec!["api.one.example".to_string(), "*.two.example".to_string()]
}

// ---- opening and closing ----

#[test]
fn schedule_unlock_widens_both_airgap_state_and_the_live_proxy() {
    let mut gate = Gateway::new();
    gate.create_gapped_pane_proxy("pty-1");
    assert_eq!(gate.proxy_mode("pty-1"), Some(PaneMode::Providers));

    let effects = gate.schedule_unlock("pty-1", 15, Some(15 * MINUTE), 0);

    assert_eq!(gate.pane_mode("pty-1"), Some(PaneMode::Open));
    assert_eq!(gate.proxy_mode("pty-1"), Some(PaneMode::Open));
    assert!(effects.contains(&GateEffect::LogUnlock { minutes: 15 }));
    assert!(effects.contains(&GateEffect::UnlockProxy));
    assert!(effects.contains(&GateEffect::ArmTimer { generation: 1, sleep_ms: 900_000 }));
    assert_eq!(gate.timer("pty-1"), Some(1));
}

#[test]
fn schedule_unlock_on_an_unknown_pane_touches_neither_airgap_state_nor_any_proxy() {
    let mut gate = Gateway::new();
    let effects = gate.schedule_unlock("ghost", 15, Some(15 * MINUTE), 0);
    assert_eq!(gate.pane_mode("ghost"), None);
    assert_eq!(gate.timer("ghost"), None);
    assert!(effects.is_empty());
}

#[test]
fn a_time_that_is_no_choice_opens_nothing() {
    let mut gate = Gateway::new();
    gate.create_gapped_pane_proxy("pty-1");
    assert!(gate.schedule_unlock("pty-1", 7, None, 0).is_empty());
    assert_eq!(gate.pane_mode("pty-1"), Some(PaneMode::Providers));
    assert_eq!(gate.timer("pty-1"), None);
}

#[test]
fn a_pane_is_opened_for_an_offered_time() {
    assert_eq!(unlock_deadline(15, 1000), Some(901_000));
    assert_eq!(unlock_deadline(30, 0), Some(1_800_000));
    assert_eq!(unlock_deadline(60, -1), Some(3_599_999));
    for minutes in [0, -15, 14, 16, 61, i64::MAX, i64::MIN] {
        assert_eq!(unlock_deadline(minutes, 0), None);
    }
    let mut panes = Gateway::new();
    panes.register_pane("pty-1");
    let effects = panes.schedule_unlock("pty-1", 60, unlock_deadline(60, 7), 7);
    assert!(effects.contains(&GateEffect::ArmTimer { generation: 1, sleep_ms: 3_600_000 }));
}

#[test]
fn a_deadline_that_has_passed_sleeps_no_time() {
    let mut gate = Gateway::new();
    gate.register_pane("pty-1");
    let effects = gate.schedule_unlock("pty-1", 15, Some(5), 10);
    assert_eq!(
        effects,
        vec![
            GateEffect::ArmTimer { generation: 1, sleep_ms: 0 },
            GateEffect::LogUnlock { minutes: 15 },
            GateEffect::PushState,
        ]
    );
}

#[test]
fn relock_now_narrows_both_airgap_state_and_the_live_proxy() {
    let mut gate = Gateway::new();
    gate.create_gapped_pane_proxy("pty-1");
    gate.schedule_unlock("pty-1", 15, Some(15 * MINUTE), 0);
    assert_eq!(gate.proxy_mode("pty-1"), Some(PaneMode::Open));

    let effects = gate.relock_now("pty-1");

    assert_eq!(gate.pane_mode("pty-1"), Some(PaneMode::Providers));
    assert_eq!(gate.proxy_mode("pty-1"), Some(PaneMode::Providers));
    assert_eq!(effects, vec![GateEffect::RelockProxy, GateEffect::LogRelock, GateEffect::PushState]);
}

#[test]
fn closing_by_hand_stops_the_timer() {
    let mut gate = Gateway::new();
    gate.create_gapped_pane_proxy("pty-1");
    gate.schedule_unlock("pty-1", 15, Some(15 * MINUTE), 0);
    let effects = gate.airgap_relock("pty-1");
    assert_eq!(effects[0], GateEffect::AbortTimer);
    assert_eq!(gate.timer("pty-1"), None);
    assert_eq!(gate.pane_mode("pty-1"), Some(PaneMode::Providers));
    assert!(gate.relock_now("ghost").is_empty());
}

#[test]
fn close_pane_and_proxy_tears_down_the_live_proxy_and_cancels_its_timer() {
    let mut gate = Gateway::new();
    assert_eq!(gate.create_gapped_pane_proxy("pty-1"), vec![GateEffect::PushState]);
    gate.schedule_unlock("pty-1", 15, Some(15 * MINUTE), 0);

    let effects = gate.close_pane_and_proxy("pty-1");

    assert_eq!(effects, vec![GateEffect::AbortTimer, GateEffect::ShutDownProxy, GateEffect::PushState]);
    assert_eq!(gate.proxy_mode("pty-1"), None);
    assert_eq!(gate.timer("pty-1"), None);
    assert_eq!(gate.pane_mode("pty-1"), None);
}

#[test]
fn close_pane_and_proxy_on_an_unregistered_pane_touches_nothing() {
    let mut gate = Gateway::new();
    gate.create_gapped_pane_proxy("pty-1");
    assert!(gate.close_pane_and_proxy("never-existed").is_empty());
    assert_eq!(gate.pane_mode("pty-1"), Some(PaneMode::Providers));
    assert_eq!(gate.proxied_panes(), vec!["pty-1".to_string()]);
}

#[test]
fn a_superseding_unlock_prevents_the_stale_timers_generation_from_being_claimed() {
    let mut gate = Gateway::new();
    gate.register_pane("pty-1");

    gate.schedule_unlock("pty-1", 15, Some(15 * MINUTE), 0);
    let stale_generation = gate.timer("pty-1").unwrap();
    let effects = gate.schedule_unlock("pty-1", 30, Some(30 * MINUTE), 0);
    assert_eq!(effects[0], GateEffect::AbortTimer);
    let current_generation = gate.timer("pty-1").unwrap();
    assert_ne!(stale_generation, current_generation);

    assert!(!gate.claim_timer_if_current("pty-1", stale_generation));
    assert!(gate.timer("pty-1").is_some());
    assert!(gate.timer_fired("pty-1", stale_generation).is_empty());
    assert_eq!(gate.pane_mode("pty-1"), Some(PaneMode::Open));

    assert!(gate.claim_timer_if_current("pty-1", current_generation));
    assert_eq!(gate.timer("pty-1"), None);
    assert!(!gate.claim_timer_if_current("pty-1", current_generation));
}

#[test]
fn the_armed_timer_closes_its_pane_and_no_other() {
    let mut gate = Gateway::new();
    gate.create_gapped_pane_proxy("a");
    gate.create_gapped_pane_proxy("b");
    gate.schedule_unlock("a", 15, Some(15 * MINUTE), 0);
    gate.schedule_unlock("b", 15, Some(15 * MINUTE), 0);
    let generation = gate.timer("a").unwrap();
    let effects = gate.timer_fired("a", generation);
    assert_eq!(effects, vec![GateEffect::RelockProxy, GateEffect::LogRelock, GateEffect::PushState]);
    assert_eq!(gate.pane_mode("a"), Some(PaneMode::Providers));
    assert_eq!(gate.pane_mode("b"), Some(PaneMode::Open));
    assert!(gate.timer("b").is_some());
}

#[test]
fn everything_is_taken_down_at_once() {
    let mut gate = Gateway::new();
    gate.create_gapped_pane_proxy("a");
    gate.create_gapped_pane_proxy("b");
    gate.schedule_unlock("b", 15, Some(15 * MINUTE), 0);
    let down = gate.close_all();
    let mut proxies = down.proxies;
    proxies.sort();
    assert_eq!(proxies, vec!["a".to_string(), "b".to_string()]);
    assert_eq!(down.timers, vec!["b".to_string()]);
    assert!(gate.proxied_panes().is_empty());
    assert!(gate.close_all().proxies.is_empty());
}

// ---- which hosts ----

#[test]
fn effective_allow_patterns_with_no_consents_is_exactly_default_allow() {
    let mut patterns = effective_allow_patterns(&default_allow(), &vec![]);
    patterns.sort();
    let mut expected = default_allow();
    expected.sort();
    assert_eq!(patterns, expected);
}

#[test]
fn effective_allow_patterns_unions_default_allow_with_consented_repo_hosts() {
    let patterns = effective_allow_patterns(&default_allow(), &vec!["extra.example.com".to_string()]);
    assert!(patterns.contains(&"extra.example.com".to_string()));
    for p in default_allow() {
        assert!(patterns.contains(&p));
    }
}

#[test]
fn recompile_all_proxies_is_a_harmless_no_op_with_no_live_proxies() {
    assert!(recompile_all_proxies(&Gateway::new(), &default_allow(), &vec![]).is_empty());
}

#[test]
fn every_live_proxy_gets_the_hosts_of_a_consent() {
    let mut gate = Gateway::new();
    gate.create_gapped_pane_proxy("a");
    gate.register_pane("unproxied");
    let hosts = vec!["extra.example.com".to_string()];
    let applied = ConsentOutcome::Applied { applied: hosts.clone(), rejected: vec![] };
    match airgap_consent_repo_allowlist(&gate, &applied, &default_allow(), &hosts) {
        Ok(v) => {
            assert_eq!(v.len(), 1);
            assert_eq!(v[0].pane, "a");
            assert_eq!(v[0].allowed.len(), 3);
            assert_eq!(v[0].allowed[2], "extra.example.com");
        },
        Err(_) => panic!("the consent was given"),
    }
    let refused = ConsentOutcome::Refused("changed".to_string());
    match airgap_consent_repo_allowlist(&gate, &refused, &default_allow(), &hosts) {
        Err(e) => assert_eq!(e, "changed"),
        Ok(_) => panic!("the consent was refused"),
    }
}

// ---- what is told ----

fn keys(v: &[(String, Json)]) -> Vec<&str> {
    v.iter().map(|(k, _)| k.as_str()).collect()
}

#[test]
fn a_blocked_host_is_counted_only_when_tried_again() {
    assert_eq!(keys(&blocked_fields("pty-1", "evil.example", 1)), vec!["paneId", "host"]);
    let again = blocked_fields("pty-1", "evil.example", 3);
    assert_eq!(keys(&again), vec!["paneId", "host", "count"]);
    assert!(matches!(&again[2].1, Json::Number(n) if n == "3"));
}

#[test]
fn the_state_holds_the_lock() {
    let snapshot = vec![("panes".to_string(), Json::Array(vec![]))];
    let v = airgap_state(snapshot, Some((true, false)));
    assert_eq!(keys(&v), vec!["panes", "auth"]);
    match &v[1].1 {
        Json::Object(o) => {
            assert_eq!(keys(o), vec!["configured", "totp"]);
            assert!(matches!(o[0].1, Json::Bool(true)));
            assert!(matches!(o[1].1, Json::Bool(false)));
        },
        _ => panic!("the lock is an object"),
    }
}

// ---- credentials ----

#[test]
fn opening_a_pane_takes_the_stronger_credential() {
    let text = |s: &str| Some(s.to_string());
    assert!(matches!(unlock_check(1, false, None, text("p")), UnlockCheck::Refused(e) if e == "Too many attempts — try again in 1s."));
    assert!(matches!(unlock_check(0, true, text("123456"), text("p")), UnlockCheck::CheckCode(c) if c == "123456"));
    assert!(matches!(unlock_check(0, true, None, text("p")), UnlockCheck::Missing));
    assert!(matches!(unlock_check(0, false, text("123456"), text("p")), UnlockCheck::CheckPassphrase(p) if p == "p"));
    assert!(matches!(unlock_check(0, false, text("123456"), None), UnlockCheck::Missing));
}

#[test]
fn a_refused_credential_is_named_and_noted() {
    let code = || UnlockCheck::CheckCode("123456".to_string());
    let pass = || UnlockCheck::CheckPassphrase("p".to_string());
    let good = airgap_unlock(code(), true, true);
    assert!(matches!(good.answer, Answer::Done));
    assert_eq!(good.recorded, Some(true));
    let bad = airgap_unlock(code(), true, false);
    assert!(matches!(bad.answer, Answer::Refused(e) if e == "Wrong 2FA code."));
    assert_eq!(bad.recorded, Some(false));
    let bad = airgap_unlock(pass(), false, false);
    assert!(matches!(bad.answer, Answer::Refused(e) if e == "Wrong passphrase."));
    assert_eq!(bad.recorded, Some(false));
    let missing = airgap_unlock(UnlockCheck::Missing, false, true);
    assert!(matches!(missing.answer, Answer::Refused(e) if e == "Wrong passphrase."));
    assert_eq!(missing.recorded, Some(false));
    let throttled = airgap_unlock(unlock_check(1500, true, Some("123456".to_string()), None), true, true);
    assert!(matches!(throttled.answer, Answer::Refused(e) if e == "Too many attempts — try again in 2s."));
    assert_eq!(throttled.recorded, None);
}

#[test]
fn a_passphrase_is_set_up_once() {
    assert!(airgap_setup(false, None).is_none());
    assert!(matches!(airgap_setup(true, None), Some(Answer::Refused(e)) if e == "Already configured."));
    assert!(matches!(airgap_setup(false, Some(Ok(()))), Some(Answer::Done)));
    assert!(matches!(airgap_setup(false, Some(Err("too short".to_string()))), Some(Answer::Refused(e)) if e == "too short"));
}

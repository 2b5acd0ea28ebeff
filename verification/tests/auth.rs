use tome::auth::{
    auth_login, auth_status, auth_touchid, ceil_seconds, evaluate_reauth, mark_unlocked, reauth_checked, reauth_step,
    throttle_message, unrestricted_spawn_needs_reauth, wait_message, Answer, ReauthOutcome, ReauthStep, Session,
};
use tome::json::Json;
use tome::runs::runs_start;

fn refusal(a: &Answer) -> Option<&str> {
    match a {
        Answer::Done => None,
        Answer::Refused(e) => Some(e),
    }
}

#[test]
fn ceil_seconds_rounds_up_and_handles_the_exact_multiple() {
    assert_eq!(ceil_seconds(0), 0);
    assert_eq!(ceil_seconds(1), 1);
    assert_eq!(ceil_seconds(999), 1);
    assert_eq!(ceil_seconds(1000), 1);
    assert_eq!(ceil_seconds(1001), 2);
    assert_eq!(ceil_seconds(30_000), 30);
}

#[test]
fn the_longest_wait_still_rounds_up() {
    assert_eq!(ceil_seconds(u64::MAX), u64::MAX / 1000 + 1);
}

#[test]
fn fresh_app_state_boots_with_locked_false_and_unlocked_false() {
    let state = Session::new();
    assert!(!state.locked);
    assert!(!state.auth_unlocked);
}

#[test]
fn unlocking_sets_both_fields() {
    let mut s = Session { locked: true, auth_unlocked: false };
    mark_unlocked(&mut s);
    assert!(!s.locked);
    assert!(s.auth_unlocked);
}

#[test]
fn waits_are_told_in_seconds() {
    assert_eq!(throttle_message(1500), "Too many attempts. Wait 2s.");
    assert_eq!(wait_message(30_000), "Too many attempts — try again in 30s.");
}

// ---- logging in ----

#[test]
fn a_throttled_login_checks_nothing() {
    let mut s = Session { locked: true, auth_unlocked: false };
    let r = auth_login(&mut s, 1, true, false, None);
    assert_eq!(refusal(&r.answer), Some("Too many attempts — try again in 1s."));
    assert_eq!(r.recorded, None);
    assert!(s.locked && !s.auth_unlocked);
}

#[test]
fn a_login_needs_every_factor() {
    let mut s = Session { locked: true, auth_unlocked: false };
    let r = auth_login(&mut s, 0, false, true, Some(true));
    assert_eq!(refusal(&r.answer), Some("Wrong passphrase."));
    assert_eq!(r.recorded, Some(false));
    let r = auth_login(&mut s, 0, true, true, None);
    assert_eq!(refusal(&r.answer), Some("Wrong 2FA code."));
    let r = auth_login(&mut s, 0, true, true, Some(false));
    assert_eq!(refusal(&r.answer), Some("Wrong 2FA code."));
    assert!(s.locked && !s.auth_unlocked);
    let r = auth_login(&mut s, 0, true, true, Some(true));
    assert_eq!(refusal(&r.answer), None);
    assert_eq!(r.recorded, Some(true));
    assert!(!s.locked && s.auth_unlocked);
}

#[test]
fn a_login_without_a_second_factor_ignores_the_code() {
    let mut s = Session { locked: true, auth_unlocked: false };
    let r = auth_login(&mut s, 0, true, false, Some(false));
    assert_eq!(refusal(&r.answer), None);
    assert!(s.auth_unlocked);
}

#[test]
fn status_tells_what_is_set_up() {
    let s = auth_status(Some((true, false)), &Session { locked: false, auth_unlocked: true });
    assert!(s.configured && !s.totp && s.unlocked && !s.touch_id);
    let s = auth_status(None, &Session::new());
    assert!(!s.configured && !s.totp && !s.unlocked && !s.touch_id);
}

#[test]
fn touch_id_is_refused() {
    assert_eq!(refusal(&auth_touchid()), Some("Touch ID is not available in this build yet."));
}

// ---- the ceremony before an unsandboxed process ----

fn payload(pairs: &[(&str, &str)]) -> Json {
    Json::Object(pairs.iter().map(|(k, v)| (k.to_string(), Json::Text(v.to_string()))).collect())
}

#[test]
fn only_unsandboxed_spawns_of_a_locked_install_are_checked() {
    assert!(unrestricted_spawn_needs_reauth(false, true));
    assert!(!unrestricted_spawn_needs_reauth(true, true));
    assert!(!unrestricted_spawn_needs_reauth(false, false));
    assert!(!unrestricted_spawn_needs_reauth(true, false));
}

#[test]
fn the_ceremony_has_three_ends() {
    assert!(matches!(evaluate_reauth(false, true), ReauthOutcome::NeedsCredentials));
    assert!(matches!(evaluate_reauth(true, false), ReauthOutcome::Rejected));
    assert!(matches!(evaluate_reauth(true, true), ReauthOutcome::Verified));
}

#[test]
fn the_ceremony_asks_then_checks() {
    assert!(matches!(reauth_step(true, true, 5, true, None), ReauthStep::Cleared));
    assert!(matches!(reauth_step(false, false, 5, true, None), ReauthStep::Cleared));
    match reauth_step(false, true, 5, true, None) {
        ReauthStep::Ask(Some(e)) => assert_eq!(e, "Too many attempts. Wait 1s."),
        _ => panic!("a throttled spawn waits"),
    }
    assert!(matches!(reauth_step(false, true, 0, true, None), ReauthStep::Ask(None)));
    let code = payload(&[("code", "123456")]);
    match reauth_step(false, true, 0, true, Some(&code)) {
        ReauthStep::CheckCode(c) => assert_eq!(c, "123456"),
        _ => panic!("a code is checked where a second factor is set up"),
    }
    let pass = payload(&[("passphrase", "open sesame")]);
    match reauth_step(false, true, 0, false, Some(&pass)) {
        ReauthStep::CheckPassphrase(p) => assert_eq!(p, "open sesame"),
        _ => panic!("a passphrase is checked where none is"),
    }
}

#[test]
fn a_failed_check_asks_again() {
    let pass = payload(&[("passphrase", "open sesame")]);
    let code = payload(&[("code", "123456")]);
    let good = reauth_checked(reauth_step(false, true, 0, false, Some(&pass)), true);
    assert!(matches!(good.step, ReauthStep::Cleared));
    assert_eq!(good.recorded, Some(true));
    for (given, verified) in [(&pass, false), (&code, true)] {
        let bad = reauth_checked(reauth_step(false, true, 0, false, Some(given)), verified);
        match bad.step {
            ReauthStep::Ask(Some(e)) => assert_eq!(e, "Incorrect passphrase or code."),
            _ => panic!("a failed check asks again"),
        }
        assert_eq!(bad.recorded, Some(false));
    }
}

#[test]
fn only_a_payload_is_an_attempt() {
    let pass = payload(&[("passphrase", "open sesame")]);
    let asked = reauth_checked(reauth_step(false, true, 0, false, None), false);
    assert!(matches!(asked.step, ReauthStep::Ask(None)));
    assert_eq!(asked.recorded, None);
    let throttled = reauth_checked(reauth_step(false, true, 5, false, Some(&pass)), true);
    assert!(matches!(throttled.step, ReauthStep::Ask(Some(_))));
    assert_eq!(throttled.recorded, None);
    let gapped = reauth_checked(reauth_step(true, true, 0, false, Some(&pass)), false);
    assert!(matches!(gapped.step, ReauthStep::Cleared));
    assert_eq!(gapped.recorded, None);
}

#[test]
fn a_run_notes_its_attempts_too() {
    let pass = payload(&[("passphrase", "open sesame")]);
    assert_eq!(reauth_checked(runs_start(false, true, 0, false, Some(&pass)), true).recorded, Some(true));
    assert_eq!(reauth_checked(runs_start(false, true, 0, false, Some(&pass)), false).recorded, Some(false));
    assert_eq!(reauth_checked(runs_start(false, true, 0, true, Some(&pass)), true).recorded, Some(false));
    assert_eq!(reauth_checked(runs_start(false, true, 0, false, None), false).recorded, None);
}

#[test]
fn runs_meet_the_same_ceremony_as_panes() {
    assert!(matches!(runs_start(true, true, 0, false, None), ReauthStep::Cleared));
    assert!(matches!(runs_start(false, false, 0, false, None), ReauthStep::Cleared));
    match runs_start(false, true, 0, false, None) {
        ReauthStep::Ask(Some(e)) => assert!(e.starts_with("refused: this run would be unsandboxed")),
        _ => panic!("a run has nobody to ask"),
    }
    let pass = payload(&[("passphrase", "open sesame")]);
    assert!(matches!(runs_start(false, true, 0, false, Some(&pass)), ReauthStep::CheckPassphrase(_)));
}

use tome::windows::{
    boot_session, popout_label, quit_steps, shot_mode_gate, tears_off, truthy_env, warn_shot_mode, CloseAnswer, Popouts,
    QuitStep, ShotNotice, QUIT_WAIT_MS,
};

// ---- screenshot mode ----

#[test]
fn shot_mode_requires_both_env_vars_and_a_dev_build() {
    assert!(shot_mode_gate(true, true, true));
}

#[test]
fn shot_mode_is_refused_with_only_tome_shot_set() {
    assert!(!shot_mode_gate(true, false, true));
}

#[test]
fn shot_mode_is_refused_with_only_tome_shot_ack_set() {
    assert!(!shot_mode_gate(false, true, true));
}

#[test]
fn shot_mode_is_refused_in_a_packaged_build_even_with_both_vars() {
    assert!(!shot_mode_gate(true, true, false));
}

#[test]
fn shot_mode_is_refused_with_neither_var() {
    assert!(!shot_mode_gate(false, false, true));
    assert!(!shot_mode_gate(false, false, false));
}

#[test]
fn truthy_env_is_true_only_for_a_set_non_empty_value() {
    assert!(truthy_env(Some("1")));
    assert!(!truthy_env(Some("")));
    assert!(!truthy_env(None));
}

#[test]
fn screenshot_mode_is_never_silent() {
    assert!(matches!(warn_shot_mode(true, true), ShotNotice::Active));
    assert!(matches!(warn_shot_mode(false, true), ShotNotice::Ignored));
    assert!(matches!(warn_shot_mode(false, false), ShotNotice::Nothing));
}

#[test]
fn an_install_with_a_passphrase_starts_locked() {
    let s = boot_session(Some(true), false);
    assert!(s.locked && !s.auth_unlocked);
    assert!(!boot_session(Some(false), false).locked);
    assert!(!boot_session(None, false).locked);
    assert!(!boot_session(Some(true), true).locked);
}

// ---- torn-off windows ----

#[test]
fn torn_off_windows_are_told_by_their_label() {
    assert!(popout_label("popout-0"));
    assert!(popout_label("popout"));
    assert!(!popout_label("main"));
    assert!(!popout_label("pop"));
}

#[test]
fn only_the_main_window_tears_off() {
    assert!(tears_off("main", "/popout.html"));
    assert!(tears_off("main", "/app/popout.html"));
    assert!(!tears_off("popout-1", "/popout.html"));
    assert!(!tears_off("main", "/index.html"));
}

#[test]
fn a_torn_off_window_closes_after_it_was_asked() {
    let mut p = Popouts::new();
    let first = p.open();
    let second = p.open();
    assert_ne!(first, second);
    assert!(popout_label(&first));
    assert!(matches!(p.close_requested(&first, true), CloseAnswer::Ask));
    assert_eq!(p.popout_close(&first, true), Ok(true));
    assert!(matches!(p.close_requested(&second, true), CloseAnswer::Ask));
    assert!(matches!(p.close_requested(&first, true), CloseAnswer::Close));
    assert!(matches!(p.close_requested(&first, true), CloseAnswer::Ask));
}

#[test]
fn windows_close_when_nobody_can_ask() {
    let mut p = Popouts::new();
    let w = p.open();
    assert!(matches!(p.close_requested(&w, false), CloseAnswer::Close));
    assert!(p.quit_requested());
    assert!(!p.quit_requested());
    assert!(matches!(p.close_requested(&w, true), CloseAnswer::Close));
}

#[test]
fn a_window_that_is_gone_cannot_be_closed() {
    let mut p = Popouts::new();
    assert_eq!(p.popout_close("popout-7", false), Ok(false));
    assert!(p.approved.is_empty());
    assert_eq!(p.popout_close("main", true), Err("popout:close: not a popout window: main".to_string()));
    assert_eq!(p.popout_close("popout-7", true), Ok(true));
    p.destroyed("popout-7");
    assert!(p.approved.is_empty());
}

// ---- going down ----

#[test]
fn everything_goes_down_in_order() {
    let steps = quit_steps();
    assert_eq!(steps.len(), 5);
    assert!(matches!(steps[0], QuitStep::ShutDownProxies));
    assert!(matches!(steps[1], QuitStep::AbortTicker));
    assert!(matches!(steps[2], QuitStep::KillRuns));
    assert!(matches!(steps[3], QuitStep::ShutDownServers));
    assert!(matches!(steps[4], QuitStep::Exit));
    assert_eq!(QUIT_WAIT_MS, 1500);
}

use termkeys::keys::KeyEventKind;
use termkeys::session::{
    handles_key_kind, initial_mode, mode_after_onboarding, mode_after_workspace_attempt,
    onboarding_choices, restored_selection, should_save_session, toast_duration_secs, Mode,
    ToastKind, CONFIG_DIAGNOSTIC_SECS,
};

#[test]
fn start_up_mode() {
    assert_eq!(initial_mode(true, true), Mode::Onboarding);
    assert_eq!(initial_mode(false, true), Mode::Terminal);
    assert_eq!(initial_mode(false, false), Mode::Navigate);
}

#[test]
fn restored_session_selection() {
    assert_eq!(restored_selection(Some(1), 5, 3), (Some(1), 2));
    assert_eq!(restored_selection(Some(3), 0, 3), (None, 0));
    assert_eq!(restored_selection(None, 1, 3), (None, 1));
    assert_eq!(restored_selection(Some(0), 4, 0), (None, 0));
}

#[test]
fn onboarding_outcome() {
    assert_eq!(onboarding_choices(0), (false, false));
    assert_eq!(onboarding_choices(1), (false, true));
    assert_eq!(onboarding_choices(2), (true, false));
    assert_eq!(onboarding_choices(9), (true, true));
    assert_eq!(mode_after_onboarding(true), Mode::Terminal);
    assert_eq!(mode_after_onboarding(false), Mode::Navigate);
    assert_eq!(mode_after_workspace_attempt(true), Mode::Terminal);
    assert_eq!(mode_after_workspace_attempt(false), Mode::Navigate);
}

#[test]
fn toasts_keys_and_exit() {
    assert_eq!(toast_duration_secs(ToastKind::NeedsAttention), 8);
    assert_eq!(toast_duration_secs(ToastKind::Finished), 5);
    assert_eq!(CONFIG_DIAGNOSTIC_SECS, 8);
    assert!(handles_key_kind(KeyEventKind::Press));
    assert!(!handles_key_kind(KeyEventKind::Release));
    assert!(!handles_key_kind(KeyEventKind::Repeat));
    assert!(should_save_session(false, 2));
    assert!(!should_save_session(true, 2));
    assert!(!should_save_session(false, 0));
}

//! The decisions the application makes when it starts, restores a session,
//! finishes onboarding, opens a workspace, shows a toast and exits.
use vstd::prelude::*;

use crate::keys::KeyEventKind;

verus! {

/// The modes that the application starts in or returns to.
#[derive(Clone, Copy, Debug, PartialEq, Eq, Structural)]
pub enum Mode {
    Onboarding,
    Terminal,
    Navigate,
}

/// What a toast reports.
#[derive(Clone, Copy, Debug, PartialEq, Eq, Structural)]
pub enum ToastKind {
    NeedsAttention,
    Finished,
}

/// How long a configuration diagnostic stays on screen, in seconds.
pub const CONFIG_DIAGNOSTIC_SECS: u64 = 8;

/// The mode at start-up: onboarding when the configuration asks for it, else
/// the terminal when a workspace is active, else navigation.
pub fn initial_mode(show_onboarding: bool, has_active: bool) -> (m: Mode)
    ensures
        m == (if show_onboarding {
            Mode::Onboarding
        } else if has_active {
            Mode::Terminal
        } else {
            Mode::Navigate
        }),
{
    if show_onboarding {
        Mode::Onboarding
    } else if has_active {
        Mode::Terminal
    } else {
        Mode::Navigate
    }
}

/// The active and selected workspace after restoring `restored` workspaces
/// from a saved session: a saved active index only if it is in range, and the
/// saved selection clamped to the last workspace; nothing when no workspace
/// was restored.
pub fn restored_selection(active: Option<usize>, selected: usize, restored: usize) -> (r: (
    Option<usize>,
    usize,
))
    ensures
        restored == 0 ==> r == (None::<usize>, 0usize),
        restored > 0 ==> r.0 == (match active {
            Some(i) => if i < restored {
                Some(i)
            } else {
                None
            },
            None => None,
        }),
        restored > 0 ==> r.1 == (if selected < restored - 1 {
            selected
        } else {
            (restored - 1) as usize
        }),
{
    if restored == 0 {
        return (None, 0);
    }
    let active = match active {
        Some(i) => if i < restored {
            Some(i)
        } else {
            None
        },
        None => None,
    };
    let last = restored - 1;
    let selected = if selected < last {
        selected
    } else {
        last
    };
    (active, selected)
}

/// The sound and toast settings chosen on the onboarding screen: neither,
/// toasts only, sound only, or both.
pub fn onboarding_choices(onboarding_selected: usize) -> (r: (bool, bool))
    ensures
        r == (if onboarding_selected == 0 {
            (false, false)
        } else if onboarding_selected == 1 {
            (false, true)
        } else if onboarding_selected == 2 {
            (true, false)
        } else {
            (true, true)
        }),
{
    match onboarding_selected {
        0 => (false, false),
        1 => (false, true),
        2 => (true, false),
        _ => (true, true),
    }
}

/// The mode after onboarding was saved: the terminal when a workspace is
/// active, else navigation.
pub fn mode_after_onboarding(has_active: bool) -> (m: Mode)
    ensures
        m == (if has_active {
            Mode::Terminal
        } else {
            Mode::Navigate
        }),
{
    if has_active {
        Mode::Terminal
    } else {
        Mode::Navigate
    }
}

/// The mode after trying to open a workspace: the terminal when it opened,
/// else navigation.
pub fn mode_after_workspace_attempt(opened: bool) -> (m: Mode)
    ensures
        m == (if opened {
            Mode::Terminal
        } else {
            Mode::Navigate
        }),
{
    if opened {
        Mode::Terminal
    } else {
        Mode::Navigate
    }
}

/// How long a toast stays on screen, in seconds.
pub fn toast_duration_secs(kind: ToastKind) -> (s: u64)
    ensures
        s == (match kind {
            ToastKind::NeedsAttention => 8u64,
            ToastKind::Finished => 5u64,
        }),
{
    match kind {
        ToastKind::NeedsAttention => 8,
        ToastKind::Finished => 5,
    }
}

/// Only key presses are acted on; repeats and releases are ignored.
pub fn handles_key_kind(kind: KeyEventKind) -> (b: bool)
    ensures
        b == (kind == KeyEventKind::Press),
{
    match kind {
        KeyEventKind::Press => true,
        _ => false,
    }
}

/// The session is saved on exit unless sessions are off or no workspace is open.
pub fn should_save_session(no_session: bool, workspace_count: usize) -> (b: bool)
    ensures
        b == (!no_session && workspace_count > 0),
{
    !no_session && workspace_count > 0
}

} // verus!

use keykoff::focus::{
    foreground_step, is_shell_flyout, key_inputs, modifier_keys, release_held_modifiers, tap_key,
    ForegroundAction, ForegroundState, Input, INPUT_KEYBOARD, KEYEVENTF_KEYUP, VK_CONTROL, VK_ESCAPE,
    VK_LWIN, VK_MENU, VK_RWIN, VK_SHIFT,
};

#[test]
fn input_layout_matches_win32() {
    // SendInput silently does nothing if cb_size isn't exactly
    // sizeof(INPUT): 40 bytes on 64-bit, 28 on 32-bit.
    let expected = if std::mem::size_of::<usize>() == 8 { 40 } else { 28 };
    assert_eq!(std::mem::size_of::<Input>(), expected);
}

#[test]
fn tap_key_presses_then_releases() {
    assert_eq!(tap_key(VK_ESCAPE), vec![(VK_ESCAPE, 0), (VK_ESCAPE, KEYEVENTF_KEYUP)]);
}

#[test]
fn key_inputs_make_one_keyboard_record_per_event() {
    let v = key_inputs(&[(VK_MENU, 0), (VK_SHIFT, KEYEVENTF_KEYUP), (0x41, 0)]);
    assert_eq!(v.len(), 3);
    assert!(v.iter().all(|i| i.kind == INPUT_KEYBOARD));
    assert!(key_inputs(&[]).is_empty());
}

#[test]
fn modifier_key_order() {
    assert_eq!(modifier_keys(), vec![VK_CONTROL, VK_SHIFT, VK_MENU, VK_LWIN, VK_RWIN]);
}

#[test]
fn release_only_held_modifiers() {
    let v = release_held_modifiers(&[true, false, false, false, true]);
    assert_eq!(v, vec![(VK_CONTROL, KEYEVENTF_KEYUP), (VK_RWIN, KEYEVENTF_KEYUP)]);
    assert!(release_held_modifiers(&[false, false, false, false, false]).is_empty());
}

#[test]
fn shell_flyout_paths_are_recognized() {
    assert!(is_shell_flyout("C:\\Windows\\SystemApps\\StartMenuExperienceHost.exe"));
    assert!(is_shell_flyout("c:\\windows\\searchhost.exe"));
    assert!(is_shell_flyout("SEARCHAPP.EXE"));
    assert!(is_shell_flyout("x\\ShellExperienceHost.exe"));
    assert!(!is_shell_flyout("C:\\Windows\\explorer.exe"));
    assert!(!is_shell_flyout("searchhost.exe.bak"));
    assert!(!is_shell_flyout(""));
}

fn run(observed: &[bool]) -> Vec<ForegroundAction> {
    let mut state = ForegroundState::Start;
    let mut actions = Vec::new();
    for &o in observed {
        let (next, action) = foreground_step(state, o);
        state = next;
        actions.push(action);
    }
    actions
}

#[test]
fn foreground_already_held_stops_at_once() {
    let a = run(&[false, true, false]);
    assert_eq!(a, vec![ForegroundAction::CheckForeground, ForegroundAction::Stop { success: true }, ForegroundAction::Stop { success: true }]);
}

#[test]
fn plain_activation_synthesizes_nothing() {
    let a = run(&[false, false, true, false]);
    assert_eq!(
        a,
        vec![
            ForegroundAction::CheckForeground,
            ForegroundAction::ActivatePlain,
            ForegroundAction::Stop { success: true },
            ForegroundAction::Stop { success: true },
        ]
    );
}

#[test]
fn escalation_dismisses_flyout_and_tries_three_times() {
    let a = run(&[false, false, false, true, false, false, false, false, false]);
    assert_eq!(
        a,
        vec![
            ForegroundAction::CheckForeground,
            ForegroundAction::ActivatePlain,
            ForegroundAction::ReleaseModifiersAndCheckFlyout,
            ForegroundAction::DismissFlyout,
            ForegroundAction::ForceActivate { pause_first: false },
            ForegroundAction::ForceActivate { pause_first: true },
            ForegroundAction::ForceActivate { pause_first: true },
            ForegroundAction::Stop { success: false },
            ForegroundAction::Stop { success: false },
        ]
    );
}

#[test]
fn escalation_stops_when_an_attempt_succeeds() {
    let a = run(&[false, false, false, false, false, true]);
    assert_eq!(
        a,
        vec![
            ForegroundAction::CheckForeground,
            ForegroundAction::ActivatePlain,
            ForegroundAction::ReleaseModifiersAndCheckFlyout,
            ForegroundAction::ForceActivate { pause_first: false },
            ForegroundAction::ForceActivate { pause_first: true },
            ForegroundAction::Stop { success: true },
        ]
    );
}

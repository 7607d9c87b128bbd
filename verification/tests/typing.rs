use keycode::{KeyMap, KeyMappingId};
use shared::typing::{
    hello_world_actions, hello_world_script, idle_keyboard, report_keycodes,
    single_unmodded_key_reports, HelloKey, ScriptStep, TypingAction,
};

#[test]
fn tapping_a_key_reports_it_then_nothing() {
    let mut state = idle_keyboard();
    let (down, up) = single_unmodded_key_reports(&mut state, KeyMap::from(KeyMappingId::UsA));
    assert_eq!(down, [4, 0, 0, 0, 0, 0]);
    assert_eq!(up, [0; 6]);
    let (down, up) = single_unmodded_key_reports(&mut state, KeyMap::from(KeyMappingId::UsH));
    assert_eq!(down, [0x0b, 0, 0, 0, 0, 0]);
    assert_eq!(up, [0; 6]);
}

#[test]
fn report_keycodes_skips_modifier_and_reserved() {
    assert_eq!(report_keycodes(&[2, 0, 4, 5, 6, 7, 8, 9]), [4, 5, 6, 7, 8, 9]);
}

#[test]
fn greeting_script_types_then_erases() {
    let steps = hello_world_script();
    assert_eq!(steps.len(), 25);
    assert_eq!(steps[0], ScriptStep::Pause(1));
    assert_eq!(steps[1], ScriptStep::Tap(HelloKey::UsH));
    assert_eq!(steps[11], ScriptStep::Tap(HelloKey::UsD));
    assert_eq!(steps[12], ScriptStep::Pause(1));
    assert!(steps[13..].iter().all(|s| *s == ScriptStep::Tap(HelloKey::Backspace)));
}

#[test]
fn greeting_leaves_no_text() {
    let mut text: Vec<HelloKey> = Vec::new();
    let mut shown_before_erasing = Vec::new();
    for (i, step) in hello_world_script().into_iter().enumerate() {
        if i == 13 {
            shown_before_erasing = text.clone();
        }
        match step {
            ScriptStep::Pause(_) => {}
            ScriptStep::Tap(HelloKey::Backspace) => {
                text.pop();
            }
            ScriptStep::Tap(k) => text.push(k),
        }
    }
    assert_eq!(shown_before_erasing.len(), 11);
    assert_eq!(shown_before_erasing[0], HelloKey::UsH);
    assert!(text.is_empty());
}

fn slots(code: u8) -> TypingAction<[u8; 6]> {
    TypingAction::Send([code, 0, 0, 0, 0, 0])
}

#[test]
fn greeting_sends_the_forty_six_reports() {
    let mut state = idle_keyboard();
    let actions = hello_world_actions(&mut state);
    let none = TypingAction::Send([0u8; 6]);
    let mut expected = vec![TypingAction::Pause(1)];
    for code in [0x0b, 0x08, 0x0f, 0x0f, 0x12, 0x2c, 0x1a, 0x12, 0x15, 0x0f, 0x07] {
        expected.push(slots(code));
        expected.push(TypingAction::Send([0u8; 6]));
    }
    expected.push(TypingAction::Pause(1));
    for _ in 0..12 {
        expected.push(slots(0x2a));
        expected.push(TypingAction::Send([0u8; 6]));
    }
    assert_eq!(actions, expected);
    assert_eq!(actions.iter().filter(|a| **a != TypingAction::Pause(1)).count(), 46);
    assert_eq!(actions[2], none);
    // the keyboard is idle again, so the next run sends the same
    assert_eq!(hello_world_actions(&mut state), expected);
}

#[test]
fn tapping_a_modifier_key_leaves_the_slots_empty() {
    let mut state = idle_keyboard();
    let (down, up) = single_unmodded_key_reports(&mut state, KeyMap::from(KeyMappingId::ShiftLeft));
    assert_eq!(down, [0; 6]);
    assert_eq!(up, [0; 6]);
}

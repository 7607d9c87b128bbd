use shared::device::{get_key_rep, Blinker, LedAction};
use shared::report::MyKeyboardReport;

#[test]
fn key_rep_fills_every_slot() {
    assert_eq!(
        get_key_rep(4),
        MyKeyboardReport { modifier: 0, reserved: 0, leds: 0, keycodes: [4; 6] }
    );
}

#[test]
fn blinker_blinks_twice() {
    let mut b = Blinker::new(250, 2);
    let mut got = Vec::new();
    while let Some(a) = b.next_action() {
        got.push(a);
    }
    assert_eq!(got, vec![
            LedAction::On,
            LedAction::Wait(250),
            LedAction::Off,
            LedAction::Wait(250),
            LedAction::On,
            LedAction::Wait(250),
            LedAction::Off,
            LedAction::Wait(250),
        ]);
    assert_eq!(b.next_action(), None);
}

#[test]
fn blinker_with_no_blinks_does_nothing() {
    let mut b = Blinker::new(10, 0);
    assert_eq!(b.next_action(), None);
}

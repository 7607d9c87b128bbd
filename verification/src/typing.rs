use vstd::prelude::*;

use keycode::{KeyMap, KeyMappingId, KeyboardState};

verus! {

/// Declares keycode's keyboard state, which tracks held keys and modifiers.
#[verifier::external_type_specification]
#[verifier::external_body]
pub struct ExKeyboardState(KeyboardState);

/// Declares keycode's key mapping, which names one key on every platform.
#[verifier::external_type_specification]
#[verifier::external_body]
pub struct ExKeyMap(KeyMap);

/// The non-modifier keys a keyboard state holds, oldest first, each by the
/// low byte of its USB usage (what an input report carries).
pub uninterp spec fn pressed_usb_codes(state: KeyboardState) -> Seq<u8>;

/// The modifier bitmap a keyboard state holds.
pub uninterp spec fn held_modifiers(state: KeyboardState) -> u8;

/// The key rollover limit a keyboard state was made with.
pub uninterp spec fn key_rollover(state: KeyboardState) -> Option<usize>;

/// Where among the held keys of a state the entry equal to `key` stands, if
/// the state holds it (a key is held at most once).
pub uninterp spec fn key_position(state: KeyboardState, key: KeyMap) -> Option<nat>;

/// The low byte of a key's USB usage.
pub uninterp spec fn key_usb_code(key: KeyMap) -> u8;

/// A key's modifier bit, if it is a modifier key.
pub uninterp spec fn key_modifier(key: KeyMap) -> Option<u8>;

/// Every held entry sits at a held position and carries its key's code.
pub open spec fn positions_consistent(state: KeyboardState) -> bool {
    forall|k: KeyMap|
        #[trigger] key_position(state, k) matches Some(i) ==> i < pressed_usb_codes(state).len()
            && pressed_usb_codes(state)[i as int] == key_usb_code(k)
}

/// Whether a key goes down or comes up.
#[derive(Debug, Clone, Copy, PartialEq, Eq)]
pub enum KeyAction {
    Pressed,
    Released,
}

/// The least length of an input report for a rollover limit.
pub open spec fn report_min_len(rollover: Option<usize>) -> int {
    match rollover {
        Some(n) => n + 2,
        None => 8,
    }
}

/// The length of the input report of a keyboard holding `held` keys.
pub open spec fn report_len(rollover: Option<usize>, held: nat) -> int {
    if held + 2 < report_min_len(rollover) {
        report_min_len(rollover)
    } else {
        held + 2int
    }
}

/// The USB input report of a keyboard holding `modifiers` and the keys
/// `codes`: modifier byte, reserved zero, the key codes, zero padding up to
/// the least length.
pub open spec fn input_report(modifiers: u8, codes: Seq<u8>, rollover: Option<usize>) -> Seq<u8> {
    let head = seq![modifiers, 0u8] + codes;
    head + Seq::new((report_len(rollover, codes.len()) - head.len()) as nat, |_i: int| 0u8)
}

/// The six key slots of a report for the held keys `codes`.
pub open spec fn key_slots(codes: Seq<u8>) -> Seq<u8> {
    codes + Seq::new((6 - codes.len()) as nat, |_i: int| 0u8)
}

/// Pressing a new non-modifier key adds nothing: the state is full or the
/// rollover limit is met.
pub open spec fn press_blocked(state: KeyboardState) -> bool {
    ||| pressed_usb_codes(state).len() >= 256
    ||| key_rollover(state) matches Some(n) && pressed_usb_codes(state).len() >= n
}

/// The held keys after pressing `key`, then after releasing it again.
pub open spec fn tap_codes(state: KeyboardState, key: KeyMap) -> (Seq<u8>, Seq<u8>) {
    let codes = pressed_usb_codes(state);
    if key_modifier(key) is Some {
        (codes, codes)
    } else {
        match key_position(state, key) {
            Some(i) => (codes, codes.remove(i as int)),
            None => if press_blocked(state) {
                (codes, codes)
            } else {
                (codes.push(key_usb_code(key)), codes)
            },
        }
    }
}

/// Calls `keycode::KeyboardState::new`: no key and no modifier held, the
/// given rollover limit kept.
#[verifier::external_body]
fn keyboard_state_new(rollover: Option<usize>) -> (state: KeyboardState)
    ensures
        pressed_usb_codes(state) == Seq::<u8>::empty(),
        held_modifiers(state) == 0,
        key_rollover(state) == rollover,
        forall|k: KeyMap| #[trigger] key_position(state, k) == None::<nat>,
{
    KeyboardState::new(rollover)
}

/// Calls `keycode::KeyboardState::update_key`. Pressing a modifier key sets
/// its bit. Pressing another key appends it at the end unless it is held
/// already, the state (256 entries) is full or the rollover limit is met.
/// Releasing a modifier key clears its bit; releasing another key removes its
/// entry, keeping the order of the others. The rollover limit stays.
#[verifier::external_body]
fn update_key(state: &mut KeyboardState, key: KeyMap, action: KeyAction)
    ensures
        key_rollover(*final(state)) == key_rollover(*old(state)),
        positions_consistent(*old(state)) ==> positions_consistent(*final(state)),
        action == KeyAction::Pressed ==> match key_modifier(key) {
            Some(bit) => {
                &&& pressed_usb_codes(*final(state)) == pressed_usb_codes(*old(state))
                &&& held_modifiers(*final(state)) == held_modifiers(*old(state)) | bit
                &&& key_position(*final(state), key) == key_position(*old(state), key)
            },
            None => {
                &&& held_modifiers(*final(state)) == held_modifiers(*old(state))
                &&& if key_position(*old(state), key) is Some || press_blocked(*old(state)) {
                    &&& pressed_usb_codes(*final(state)) == pressed_usb_codes(*old(state))
                    &&& key_position(*final(state), key) == key_position(*old(state), key)
                } else {
                    &&& pressed_usb_codes(*final(state)) == pressed_usb_codes(*old(state)).push(
                        key_usb_code(key),
                    )
                    &&& key_position(*final(state), key) == Some(pressed_usb_codes(*old(state)).len())
                }
            },
        },
        action == KeyAction::Released ==> match key_modifier(key) {
            Some(bit) => {
                &&& pressed_usb_codes(*final(state)) == pressed_usb_codes(*old(state))
                &&& held_modifiers(*final(state)) == held_modifiers(*old(state)) & !bit
                &&& key_position(*final(state), key) == key_position(*old(state), key)
            },
            None => {
                &&& held_modifiers(*final(state)) == held_modifiers(*old(state))
                &&& key_position(*final(state), key) == None::<nat>
                &&& match key_position(*old(state), key) {
                    Some(i) => pressed_usb_codes(*final(state)) == pressed_usb_codes(*old(state)).remove(i as int),
                    None => pressed_usb_codes(*final(state)) == pressed_usb_codes(*old(state)),
                }
            },
        },
{
    let state_of_key = match action {
        KeyAction::Pressed => keycode::KeyState::Pressed,
        KeyAction::Released => keycode::KeyState::Released,
    };
    state.update_key(key, state_of_key)
}

/// Calls `keycode::KeyboardState::usb_input_report` and copies the report
/// out. The report is the modifier byte, a zero, the held keys and zero
/// padding up to two more than the rollover limit (eight without a limit);
/// what the state holds stays. The report buffer holds 256 bytes, so states
/// that would need more are left out.
#[verifier::external_body]
fn usb_input_report(state: &mut KeyboardState) -> (report: Vec<u8>)
    requires
        pressed_usb_codes(*old(state)).len() + 2 <= 256,
        report_min_len(key_rollover(*old(state))) <= 256,
    ensures
        report@ == input_report(
            held_modifiers(*old(state)),
            pressed_usb_codes(*old(state)),
            key_rollover(*old(state)),
        ),
        pressed_usb_codes(*final(state)) == pressed_usb_codes(*old(state)),
        held_modifiers(*final(state)) == held_modifiers(*old(state)),
        key_rollover(*final(state)) == key_rollover(*old(state)),
        forall|k: KeyMap| #[trigger] key_position(*final(state), k) == key_position(*old(state), k),
{
    state.usb_input_report().to_vec()
}

/// A keyboard with nothing held and no rollover limit.
pub fn idle_keyboard() -> (state: KeyboardState)
    ensures
        pressed_usb_codes(state) == Seq::<u8>::empty(),
        held_modifiers(state) == 0,
        key_rollover(state) == None::<usize>,
        forall|k: KeyMap| #[trigger] key_position(state, k) == None::<nat>,
        positions_consistent(state),
{
    keyboard_state_new(None)
}

/// The six key slots of an eight-byte keyboard input report.
pub fn report_keycodes(report: &[u8]) -> (slots: [u8; 6])
    requires
        report@.len() == 8,
    ensures
        slots@ == report@.subrange(2, 8),
{
    let slots: [u8; 6] = [report[2], report[3], report[4], report[5], report[6], report[7]];
    proof {
        assert(slots@ =~= report@.subrange(2, 8));
    }
    slots
}

/// The two reports of tapping `key`: the key slots right after it is
/// pressed, then right after it is released. Each report must be eight bytes
/// long, as only then does it have exactly six key slots.
pub fn single_unmodded_key_reports(state: &mut KeyboardState, key: KeyMap) -> (res: ([u8; 6], [u8; 6]))
    requires
        report_len(key_rollover(*old(state)), tap_codes(*old(state), key).0.len()) == 8,
        report_len(key_rollover(*old(state)), tap_codes(*old(state), key).1.len()) == 8,
    ensures
        res.0@ == key_slots(tap_codes(*old(state), key).0),
        res.1@ == key_slots(tap_codes(*old(state), key).1),
        pressed_usb_codes(*final(state)) == tap_codes(*old(state), key).1,
        key_rollover(*final(state)) == key_rollover(*old(state)),
        held_modifiers(*final(state)) == match key_modifier(key) {
            Some(bit) => (held_modifiers(*old(state)) | bit) & !bit,
            None => held_modifiers(*old(state)),
        },
        key_position(*final(state), key) == if key_modifier(key) is Some {
            key_position(*old(state), key)
        } else {
            None::<nat>
        },
        positions_consistent(*old(state)) ==> positions_consistent(*final(state)),
        key_modifier(key) is None && key_position(*old(state), key) is None
            && pressed_usb_codes(*old(state)).len() < 256 && (key_rollover(*old(state)) matches Some(n)
            ==> pressed_usb_codes(*old(state)).len() < n) ==> {
            &&& res.0@ == key_slots(pressed_usb_codes(*old(state)).push(key_usb_code(key)))
            &&& res.1@ == key_slots(pressed_usb_codes(*old(state)))
            &&& res.0@[pressed_usb_codes(*old(state)).len() as int] == key_usb_code(key)
            &&& pressed_usb_codes(*final(state)) == pressed_usb_codes(*old(state))
        },
{
    let ghost codes = pressed_usb_codes(*state);
    update_key(state, key, KeyAction::Pressed);
    let ghost down = pressed_usb_codes(*state);
    assert(down == tap_codes(*old(state), key).0);
    let pressed_report = usb_input_report(state);
    proof {
        lemma_report_slots(held_modifiers(*state), down, key_rollover(*state));
    }
    let pressed = report_keycodes(pressed_report.as_slice());
    update_key(state, key, KeyAction::Released);
    proof {
        if key_modifier(key) is None && key_position(*old(state), key) is None && !press_blocked(*old(state)) {
            assert(codes.push(key_usb_code(key)).remove(codes.len() as int) =~= codes);
        }
    }
    let ghost up = pressed_usb_codes(*state);
    assert(up == tap_codes(*old(state), key).1);
    let released_report = usb_input_report(state);
    proof {
        lemma_report_slots(held_modifiers(*state), up, key_rollover(*state));
    }
    let released = report_keycodes(released_report.as_slice());
    proof {
        if key_modifier(key) is None && key_position(*old(state), key) is None && !press_blocked(
            *old(state),
        ) {
            lemma_key_slots(codes.push(key_usb_code(key)));
            assert(codes.push(key_usb_code(key))[codes.len() as int] == key_usb_code(key));
        }
    }
    (pressed, released)
}

/// The six key slots hold the held keys in order, then zeros: slot `i`
/// carries the `i`-th held key while there is one, and is empty after.
pub proof fn lemma_key_slots(codes: Seq<u8>)
    requires
        codes.len() <= 6,
    ensures
        key_slots(codes).len() == 6,
        forall|i: int| 0 <= i < codes.len() ==> #[trigger] key_slots(codes)[i] == codes[i],
        forall|i: int| codes.len() <= i < 6 ==> #[trigger] key_slots(codes)[i] == 0,
{
}

/// Tapping a key that is not a modifier and not held, with room for it,
/// first adds its code after the held keys and then takes it away again:
/// the press report has the held keys followed by the key's code, the
/// release report has just the held keys.
pub proof fn lemma_tap_new_key(state: KeyboardState, key: KeyMap)
    requires
        key_modifier(key) is None,
        key_position(state, key) is None,
        pressed_usb_codes(state).len() < 6,
        key_rollover(state) matches Some(n) ==> pressed_usb_codes(state).len() < n,
    ensures
        tap_codes(state, key).0 == pressed_usb_codes(state).push(key_usb_code(key)),
        tap_codes(state, key).1 == pressed_usb_codes(state),
        key_slots(tap_codes(state, key).0)[pressed_usb_codes(state).len() as int] == key_usb_code(key),
        forall|i: int|
            0 <= i < pressed_usb_codes(state).len() ==> #[trigger] key_slots(tap_codes(state, key).0)[i]
                == pressed_usb_codes(state)[i],
        forall|i: int|
            pressed_usb_codes(state).len() < i < 6 ==> #[trigger] key_slots(tap_codes(state, key).0)[i]
                == 0,
        key_slots(tap_codes(state, key).1) == key_slots(pressed_usb_codes(state)),
{
    let codes = pressed_usb_codes(state);
    lemma_key_slots(codes.push(key_usb_code(key)));
    assert forall|i: int| 0 <= i < codes.len() implies #[trigger] key_slots(codes.push(key_usb_code(key)))[i]
        == codes[i] by {
        assert(codes.push(key_usb_code(key))[i] == codes[i]);
    }
}

/// An eight-byte input report carries the modifier byte first and, in
/// bytes two to eight, the held keys padded with zeros.
pub proof fn lemma_report_slots(modifiers: u8, codes: Seq<u8>, rollover: Option<usize>)
    requires
        report_len(rollover, codes.len()) == 8,
    ensures
        input_report(modifiers, codes, rollover).len() == 8,
        input_report(modifiers, codes, rollover).subrange(2, 8) == key_slots(codes),
        input_report(modifiers, codes, rollover)[0] == modifiers,
{
    assert(input_report(modifiers, codes, rollover).subrange(2, 8) =~= key_slots(codes));
}

/// The keys the greeting types.
#[derive(Debug, Clone, Copy, PartialEq, Eq)]
pub enum HelloKey {
    UsH,
    UsE,
    UsL,
    UsO,
    Space,
    UsW,
    UsR,
    UsD,
    Backspace,
}

/// One step of a typing script.
#[derive(Debug, Clone, Copy, PartialEq, Eq)]
pub enum ScriptStep {
    /// Wait this many seconds.
    Pause(u64),
    /// Press and release one key.
    Tap(HelloKey),
}

/// The greeting: wait a second, type "hello world", wait a second, then
/// erase it with twelve backspaces.
pub open spec fn hello_world_steps() -> Seq<ScriptStep> {
    seq![
        ScriptStep::Pause(1),
        ScriptStep::Tap(HelloKey::UsH),
        ScriptStep::Tap(HelloKey::UsE),
        ScriptStep::Tap(HelloKey::UsL),
        ScriptStep::Tap(HelloKey::UsL),
        ScriptStep::Tap(HelloKey::UsO),
        ScriptStep::Tap(HelloKey::Space),
        ScriptStep::Tap(HelloKey::UsW),
        ScriptStep::Tap(HelloKey::UsO),
        ScriptStep::Tap(HelloKey::UsR),
        ScriptStep::Tap(HelloKey::UsL),
        ScriptStep::Tap(HelloKey::UsD),
        ScriptStep::Pause(1),
    ] + Seq::new(12, |_i: int| ScriptStep::Tap(HelloKey::Backspace))
}

/// The text a plain editor shows after the steps: a tap of a key adds it, a
/// backspace removes the last key if there is one, a pause changes nothing.
pub open spec fn text_after(steps: Seq<ScriptStep>) -> Seq<HelloKey>
    decreases steps.len(),
{
    if steps.len() == 0 {
        Seq::empty()
    } else {
        let before = text_after(steps.drop_last());
        match steps.last() {
            ScriptStep::Pause(_) => before,
            ScriptStep::Tap(HelloKey::Backspace) => if before.len() == 0 {
                before
            } else {
                before.drop_last()
            },
            ScriptStep::Tap(k) => before.push(k),
        }
    }
}

/// The greeting's steps, in order.
pub fn hello_world_script() -> (steps: Vec<ScriptStep>)
    ensures
        steps@ == hello_world_steps(),
{
    let mut steps: Vec<ScriptStep> = Vec::new();
    steps.push(ScriptStep::Pause(1));
    steps.push(ScriptStep::Tap(HelloKey::UsH));
    steps.push(ScriptStep::Tap(HelloKey::UsE));
    steps.push(ScriptStep::Tap(HelloKey::UsL));
    steps.push(ScriptStep::Tap(HelloKey::UsL));
    steps.push(ScriptStep::Tap(HelloKey::UsO));
    steps.push(ScriptStep::Tap(HelloKey::Space));
    steps.push(ScriptStep::Tap(HelloKey::UsW));
    steps.push(ScriptStep::Tap(HelloKey::UsO));
    steps.push(ScriptStep::Tap(HelloKey::UsR));
    steps.push(ScriptStep::Tap(HelloKey::UsL));
    steps.push(ScriptStep::Tap(HelloKey::UsD));
    steps.push(ScriptStep::Pause(1));
    let ghost greeting = steps@;
    let mut erased: usize = 0;
    while erased < 12
        invariant
            erased <= 12,
            steps@ == greeting + Seq::new(erased as nat, |_i: int| ScriptStep::Tap(HelloKey::Backspace)),
        decreases 12 - erased,
    {
        steps.push(ScriptStep::Tap(HelloKey::Backspace));
        erased = erased + 1;
        proof {
            assert(steps@ =~= greeting + Seq::new(erased as nat, |_i: int| ScriptStep::Tap(HelloKey::Backspace)));
        }
    }
    proof {
        assert(steps@ =~= hello_world_steps());
    }
    steps
}

/// The low byte of the USB usage of each greeting key (keyboard page).
pub open spec fn hello_key_usage(key: HelloKey) -> u8 {
    match key {
        HelloKey::UsH => 0x0b,
        HelloKey::UsE => 0x08,
        HelloKey::UsL => 0x0f,
        HelloKey::UsO => 0x12,
        HelloKey::Space => 0x2c,
        HelloKey::UsW => 0x1a,
        HelloKey::UsR => 0x15,
        HelloKey::UsD => 0x07,
        HelloKey::Backspace => 0x2a,
    }
}

/// Calls `keycode::KeyMap::from` on the `KeyMappingId` of a greeting key.
/// keycode's table gives these keys the USB usages 0x07000b (H), 0x070008
/// (E), 0x07000f (L), 0x070012 (O), 0x07002c (space), 0x07001a (W),
/// 0x070015 (R), 0x070007 (D) and 0x07002a (backspace); none of them is a
/// modifier key.
#[verifier::external_body]
fn hello_key_map(key: HelloKey) -> (map: KeyMap)
    ensures
        key_usb_code(map) == hello_key_usage(key),
        key_modifier(map) == None::<u8>,
{
    KeyMap::from(
        match key {
            HelloKey::UsH => KeyMappingId::UsH,
            HelloKey::UsE => KeyMappingId::UsE,
            HelloKey::UsL => KeyMappingId::UsL,
            HelloKey::UsO => KeyMappingId::UsO,
            HelloKey::Space => KeyMappingId::Space,
            HelloKey::UsW => KeyMappingId::UsW,
            HelloKey::UsR => KeyMappingId::UsR,
            HelloKey::UsD => KeyMappingId::UsD,
            HelloKey::Backspace => KeyMappingId::Backspace,
        },
    )
}

/// What the typing side of the firmware does next: wait, or send the six
/// key slots of one report to the USB writer.
#[derive(Debug, PartialEq, Eq)]
pub enum TypingAction<S> {
    /// Wait this many seconds.
    Pause(u64),
    /// Send these key slots.
    Send(S),
}

impl View for TypingAction<[u8; 6]> {
    type V = TypingAction<Seq<u8>>;

    open spec fn view(&self) -> TypingAction<Seq<u8>> {
        match *self {
            TypingAction::Pause(secs) => TypingAction::Pause(secs),
            TypingAction::Send(slots) => TypingAction::Send(slots@),
        }
    }
}

/// The actions of running `steps` on a keyboard that holds `held` and none
/// of the script's keys: a pause waits, a tap sends the slots with the key
/// added, then the slots as they were.
pub open spec fn typing_actions(steps: Seq<ScriptStep>, held: Seq<u8>) -> Seq<TypingAction<Seq<u8>>>
    decreases steps.len(),
{
    if steps.len() == 0 {
        Seq::empty()
    } else {
        typing_actions(steps.drop_last(), held) + match steps.last() {
            ScriptStep::Pause(secs) => seq![TypingAction::Pause(secs)],
            ScriptStep::Tap(k) => seq![
                TypingAction::Send(key_slots(held.push(hello_key_usage(k)))),
                TypingAction::Send(key_slots(held)),
            ],
        }
    }
}

/// The waits and reports of one run of the greeting. The keyboard must hold
/// at most five keys, none of them a greeting key, and have no rollover limit
/// or a limit of six, so that every report is eight bytes long; it holds the
/// same keys again at the end.
pub fn hello_world_actions(state: &mut KeyboardState) -> (actions: Vec<TypingAction<[u8; 6]>>)
    requires
        pressed_usb_codes(*old(state)).len() <= 5,
        forall|k: HelloKey| !pressed_usb_codes(*old(state)).contains(#[trigger] hello_key_usage(k)),
        key_rollover(*old(state)) matches Some(n) ==> n == 6,
        positions_consistent(*old(state)),
    ensures
        actions@.map_values(|a: TypingAction<[u8; 6]>| a@) == typing_actions(
            hello_world_steps(),
            pressed_usb_codes(*old(state)),
        ),
        actions@.len() == 48,
        forall|i: int|
            0 <= i < 11 ==> #[trigger] actions@[1 + 2 * i]@ == TypingAction::Send(
                key_slots(pressed_usb_codes(*old(state)).push(greeting_codes()[i])),
            ),
        forall|i: int|
            0 <= i < 11 ==> #[trigger] actions@[2 + 2 * i]@ == TypingAction::Send(
                key_slots(pressed_usb_codes(*old(state))),
            ),
        pressed_usb_codes(*final(state)) == pressed_usb_codes(*old(state)),
        held_modifiers(*final(state)) == held_modifiers(*old(state)),
        key_rollover(*final(state)) == key_rollover(*old(state)),
        positions_consistent(*final(state)),
{
    let ghost held = pressed_usb_codes(*state);
    let script = hello_world_script();
    let mut actions: Vec<TypingAction<[u8; 6]>> = Vec::new();
    let mut i: usize = 0;
    while i < script.len()
        invariant
            0 <= i <= script@.len(),
            script@ == hello_world_steps(),
            actions@.map_values(|a: TypingAction<[u8; 6]>| a@) == typing_actions(script@.take(i as int), held),
            pressed_usb_codes(*state) == held,
            held_modifiers(*state) == held_modifiers(*old(state)),
            key_rollover(*state) == key_rollover(*old(state)),
            positions_consistent(*state),
            held.len() <= 5,
            forall|k: HelloKey| !held.contains(#[trigger] hello_key_usage(k)),
            key_rollover(*state) matches Some(n) ==> n == 6,
        decreases script@.len() - i,
    {
        let ghost before = actions@.map_values(|a: TypingAction<[u8; 6]>| a@);
        assert(script@.take(i + 1).drop_last() =~= script@.take(i as int));
        match script[i] {
            ScriptStep::Pause(secs) => {
                actions.push(TypingAction::Pause(secs));
                assert(actions@.map_values(|a: TypingAction<[u8; 6]>| a@) =~= before + seq![
                    TypingAction::Pause(secs),
                ]);
            },
            ScriptStep::Tap(k) => {
                let map = hello_key_map(k);
                proof {
                    if key_position(*state, map) is Some {
                        let p = key_position(*state, map)->0;
                        assert(held[p as int] == hello_key_usage(k));
                        assert(held.contains(hello_key_usage(k)));
                    }
                }
                let (down, up) = single_unmodded_key_reports(state, map);
                actions.push(TypingAction::Send(down));
                actions.push(TypingAction::Send(up));
                assert(actions@.map_values(|a: TypingAction<[u8; 6]>| a@) =~= before + seq![
                    TypingAction::Send(key_slots(held.push(hello_key_usage(k)))),
                    TypingAction::Send(key_slots(held)),
                ]);
            },
        }
        i = i + 1;
    }
    proof {
        assert(script@.take(script@.len() as int) =~= script@);
        lemma_greeting_sends(held);
        let views = actions@.map_values(|a: TypingAction<[u8; 6]>| a@);
        assert(actions@.len() == views.len());
        assert forall|i: int| 0 <= i < 11 implies #[trigger] actions@[1 + 2 * i]@ == TypingAction::Send(
            key_slots(held.push(greeting_codes()[i])),
        ) by {
            assert(views[1 + 2 * i] == actions@[1 + 2 * i]@);
        }
        assert forall|i: int| 0 <= i < 11 implies #[trigger] actions@[2 + 2 * i]@ == TypingAction::Send(
            key_slots(held),
        ) by {
            assert(views[2 + 2 * i] == actions@[2 + 2 * i]@);
        }
    }
    actions
}

/// Running two scripts one after the other gives the actions of the first,
/// then those of the second.
pub proof fn lemma_typing_actions_append(a: Seq<ScriptStep>, b: Seq<ScriptStep>, held: Seq<u8>)
    ensures
        typing_actions(a + b, held) == typing_actions(a, held) + typing_actions(b, held),
    decreases b.len(),
{
    if b.len() == 0 {
        assert(a + b =~= a);
        assert(typing_actions(a, held) + typing_actions(b, held) =~= typing_actions(a, held));
    } else {
        lemma_typing_actions_append(a, b.drop_last(), held);
        assert((a + b).drop_last() =~= a + b.drop_last());
        assert((a + b).last() == b.last());
        assert(typing_actions(a + b, held) =~= typing_actions(a, held) + typing_actions(b, held));
    }
}

/// `n` taps of one key send, in turn, the slots with that key added and
/// the slots as they were.
pub proof fn lemma_repeated_taps(key: HelloKey, n: nat, held: Seq<u8>)
    ensures
        typing_actions(Seq::new(n, |_i: int| ScriptStep::Tap(key)), held) == Seq::new(
            2 * n,
            |i: int|
                if i % 2 == 0 {
                    TypingAction::Send(key_slots(held.push(hello_key_usage(key))))
                } else {
                    TypingAction::Send(key_slots(held))
                },
        ),
    decreases n,
{
    let taps = Seq::new(n, |_i: int| ScriptStep::Tap(key));
    let expected = Seq::new(
        2 * n,
        |i: int|
            if i % 2 == 0 {
                TypingAction::Send(key_slots(held.push(hello_key_usage(key))))
            } else {
                TypingAction::Send(key_slots(held))
            },
    );
    if n > 0 {
        let m = (n - 1) as nat;
        lemma_repeated_taps(key, m, held);
        assert(taps.drop_last() =~= Seq::new(m, |_i: int| ScriptStep::Tap(key)));
        let shorter = Seq::new(
            2 * m,
            |i: int|
                if i % 2 == 0 {
                    TypingAction::Send(key_slots(held.push(hello_key_usage(key))))
                } else {
                    TypingAction::Send(key_slots(held))
                },
        );
        assert forall|i: int| 0 <= i < 2 * n implies #[trigger] expected[i] == (shorter + seq![
            TypingAction::Send(key_slots(held.push(hello_key_usage(key)))),
            TypingAction::Send(key_slots(held)),
        ])[i] by {
            if i == 2 * m {
                assert(i % 2 == 0) by (nonlinear_arith)
                    requires
                        i == 2 * m,
                ;
            } else if i == 2 * m + 1 {
                assert(i % 2 == 1) by (nonlinear_arith)
                    requires
                        i == 2 * m + 1,
                ;
            }
        }
        assert(expected =~= shorter + seq![
            TypingAction::Send(key_slots(held.push(hello_key_usage(key)))),
            TypingAction::Send(key_slots(held)),
        ]);
    } else {
        assert(expected =~= Seq::<TypingAction<Seq<u8>>>::empty());
    }
}

/// The first half of the greeting from an idle keyboard: a pause, then for
/// each of h, e, l, l, o, space, w, o, r, l, d the slots with that key and the
/// empty slots, then the second pause.
pub open spec fn greeting_typed_actions() -> Seq<TypingAction<Seq<u8>>> {
    let none = key_slots(Seq::empty());
    seq![
        TypingAction::Pause(1),
        TypingAction::Send(key_slots(seq![0x0bu8])),
        TypingAction::Send(none),
        TypingAction::Send(key_slots(seq![0x08u8])),
        TypingAction::Send(none),
        TypingAction::Send(key_slots(seq![0x0fu8])),
        TypingAction::Send(none),
        TypingAction::Send(key_slots(seq![0x0fu8])),
        TypingAction::Send(none),
        TypingAction::Send(key_slots(seq![0x12u8])),
        TypingAction::Send(none),
        TypingAction::Send(key_slots(seq![0x2cu8])),
        TypingAction::Send(none),
        TypingAction::Send(key_slots(seq![0x1au8])),
        TypingAction::Send(none),
        TypingAction::Send(key_slots(seq![0x12u8])),
        TypingAction::Send(none),
        TypingAction::Send(key_slots(seq![0x15u8])),
        TypingAction::Send(none),
        TypingAction::Send(key_slots(seq![0x0fu8])),
        TypingAction::Send(none),
        TypingAction::Send(key_slots(seq![0x07u8])),
        TypingAction::Send(none),
        TypingAction::Pause(1),
    ]
}

/// From an idle keyboard, the greeting waits, sends the 22 reports of
/// tapping h, e, l, l, o, space, w, o, r, l, d, waits again and sends the 24
/// reports of tapping backspace twelve times: 48 actions, 46 of them reports,
/// every second report the empty slots.
pub proof fn lemma_greeting_actions()
    ensures
        typing_actions(hello_world_steps(), Seq::empty()) == greeting_typed_actions() + Seq::new(
            24,
            |i: int|
                if i % 2 == 0 {
                    TypingAction::Send(key_slots(seq![0x2au8]))
                } else {
                    TypingAction::Send(key_slots(Seq::<u8>::empty()))
                },
        ),
        typing_actions(hello_world_steps(), Seq::empty()).len() == 48,
{
    let steps = hello_world_steps();
    let typed = steps.take(13);
    let erase = Seq::new(12, |_i: int| ScriptStep::Tap(HelloKey::Backspace));
    assert(steps =~= typed + erase);
    lemma_typing_actions_append(typed, erase, Seq::empty());
    lemma_repeated_taps(HelloKey::Backspace, 12, Seq::empty());
    assert(Seq::<u8>::empty().push(0x2au8) =~= seq![0x2au8]);
    reveal_with_fuel(typing_actions, 14);
    assert(typing_actions(typed, Seq::empty()) =~= greeting_typed_actions());
}

/// The codes of h, e, l, l, o, space, w, o, r, l, d.
pub open spec fn greeting_codes() -> Seq<u8> {
    seq![0x0bu8, 0x08, 0x0f, 0x0f, 0x12, 0x2c, 0x1a, 0x12, 0x15, 0x0f, 0x07]
}

/// On a keyboard holding `held` (none of them greeting keys), the greeting
/// waits a second, then for each of h, e, l, l, o, space, w, o, r, l, d sends
/// the held keys with that key's code added and then the held keys alone,
/// waits a second again, and does the same for backspace twelve times.
pub proof fn lemma_greeting_sends(held: Seq<u8>)
    ensures
        typing_actions(hello_world_steps(), held).len() == 48,
        typing_actions(hello_world_steps(), held)[0] == TypingAction::<Seq<u8>>::Pause(1),
        typing_actions(hello_world_steps(), held)[23] == TypingAction::<Seq<u8>>::Pause(1),
        forall|i: int|
            0 <= i < 11 ==> #[trigger] typing_actions(hello_world_steps(), held)[1 + 2 * i]
                == TypingAction::Send(key_slots(held.push(greeting_codes()[i]))),
        forall|i: int|
            0 <= i < 11 ==> #[trigger] typing_actions(hello_world_steps(), held)[2 + 2 * i]
                == TypingAction::Send(key_slots(held)),
        forall|j: int|
            0 <= j < 12 ==> #[trigger] typing_actions(hello_world_steps(), held)[24 + 2 * j]
                == TypingAction::Send(key_slots(held.push(0x2au8))),
        forall|j: int|
            0 <= j < 12 ==> #[trigger] typing_actions(hello_world_steps(), held)[25 + 2 * j]
                == TypingAction::Send(key_slots(held)),
{
    let steps = hello_world_steps();
    let typed = steps.take(13);
    let erase = Seq::new(12, |_i: int| ScriptStep::Tap(HelloKey::Backspace));
    assert(steps =~= typed + erase);
    lemma_typing_actions_append(typed, erase, held);
    lemma_repeated_taps(HelloKey::Backspace, 12, held);
    let none = TypingAction::Send(key_slots(held));
    let first = seq![
        TypingAction::Pause(1),
        TypingAction::Send(key_slots(held.push(0x0bu8))),
        none,
        TypingAction::Send(key_slots(held.push(0x08u8))),
        none,
        TypingAction::Send(key_slots(held.push(0x0fu8))),
        none,
        TypingAction::Send(key_slots(held.push(0x0fu8))),
        none,
        TypingAction::Send(key_slots(held.push(0x12u8))),
        none,
        TypingAction::Send(key_slots(held.push(0x2cu8))),
        none,
        TypingAction::Send(key_slots(held.push(0x1au8))),
        none,
        TypingAction::Send(key_slots(held.push(0x12u8))),
        none,
        TypingAction::Send(key_slots(held.push(0x15u8))),
        none,
        TypingAction::Send(key_slots(held.push(0x0fu8))),
        none,
        TypingAction::Send(key_slots(held.push(0x07u8))),
        none,
        TypingAction::Pause(1),
    ];
    reveal_with_fuel(typing_actions, 14);
    assert(typing_actions(typed, held) =~= first);
    let all = typing_actions(steps, held);
    assert forall|i: int| 0 <= i < 11 implies #[trigger] all[1 + 2 * i] == TypingAction::Send(
        key_slots(held.push(greeting_codes()[i])),
    ) by {
        assert(all[1 + 2 * i] == first[1 + 2 * i]);
    }
    assert forall|i: int| 0 <= i < 11 implies #[trigger] all[2 + 2 * i] == TypingAction::Send(
        key_slots(held),
    ) by {
        assert(all[2 + 2 * i] == first[2 + 2 * i]);
    }
    assert forall|j: int| 0 <= j < 12 implies #[trigger] all[24 + 2 * j] == TypingAction::Send(
        key_slots(held.push(0x2au8)),
    ) by {
        assert((2 * j) % 2 == 0) by (nonlinear_arith);
    }
    assert forall|j: int| 0 <= j < 12 implies #[trigger] all[25 + 2 * j] == TypingAction::Send(
        key_slots(held),
    ) by {
        assert((2 * j + 1) % 2 == 1) by (nonlinear_arith);
    }
}

/// The greeting leaves no trace: just before the backspaces the editor shows
/// "hello world", and the twelve backspaces erase all of it.
pub proof fn lemma_greeting_erased()
    ensures
        text_after(hello_world_steps().take(13)) == seq![
            HelloKey::UsH,
            HelloKey::UsE,
            HelloKey::UsL,
            HelloKey::UsL,
            HelloKey::UsO,
            HelloKey::Space,
            HelloKey::UsW,
            HelloKey::UsO,
            HelloKey::UsR,
            HelloKey::UsL,
            HelloKey::UsD,
        ],
        text_after(hello_world_steps()) == Seq::<HelloKey>::empty(),
{
    let steps = hello_world_steps();
    let typed = steps.take(13);
    reveal_with_fuel(text_after, 14);
    assert(text_after(typed) =~= seq![
        HelloKey::UsH,
        HelloKey::UsE,
        HelloKey::UsL,
        HelloKey::UsL,
        HelloKey::UsO,
        HelloKey::Space,
        HelloKey::UsW,
        HelloKey::UsO,
        HelloKey::UsR,
        HelloKey::UsL,
        HelloKey::UsD,
    ]);
    assert(steps =~= typed + Seq::new(12, |_i: int| ScriptStep::Tap(HelloKey::Backspace)));
    lemma_backspaces(typed, 12);
}

/// Backspaces remove keys from the end of the text, one each, while there
/// are any.
pub proof fn lemma_backspaces(steps: Seq<ScriptStep>, n: nat)
    ensures
        text_after(steps + Seq::new(n, |_i: int| ScriptStep::Tap(HelloKey::Backspace)))
            == text_after(steps).take(
            if n <= text_after(steps).len() {
                text_after(steps).len() - n
            } else {
                0
            },
        ),
    decreases n,
{
    let all = steps + Seq::new(n, |_i: int| ScriptStep::Tap(HelloKey::Backspace));
    if n == 0 {
        assert(all =~= steps);
        assert(text_after(steps).take(text_after(steps).len() as int) =~= text_after(steps));
    } else {
        let shorter = steps + Seq::new((n - 1) as nat, |_i: int| ScriptStep::Tap(HelloKey::Backspace));
        lemma_backspaces(steps, (n - 1) as nat);
        assert(all.drop_last() =~= shorter);
        let t = text_after(steps);
        let before = text_after(shorter);
        if before.len() > 0 {
            assert(before.drop_last() =~= t.take(t.len() - n));
        } else {
            assert(t.take(0) =~= Seq::<HelloKey>::empty());
        }
    }
}

} // verus!

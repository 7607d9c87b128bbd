use vstd::prelude::*;

use crate::report::MyKeyboardReport;

verus! {

/// The report that presses `key` in every key slot, with no modifier.
pub fn get_key_rep(key: u8) -> (r: MyKeyboardReport)
    ensures
        r.modifier == 0,
        r.reserved == 0,
        r.leds == 0,
        r.keycodes@ == Seq::new(6, |_i: int| key),
{
    let r = MyKeyboardReport { modifier: 0, reserved: 0, leds: 0, keycodes: [key; 6] };
    proof {
        assert(r.keycodes@ =~= Seq::new(6, |_i: int| key));
    }
    r
}

/// One thing the status LED is told to do.
#[derive(Debug, Clone, Copy, PartialEq, Eq)]
pub enum LedAction {
    /// Drive the LED pin high.
    On,
    /// Drive the LED pin low.
    Off,
    /// Wait for this many milliseconds.
    Wait(u32),
}

/// The action at position `i` of a blink sequence: on, wait, off, wait.
pub open spec fn blink_action(delay: u32, i: int) -> LedAction {
    if i % 4 == 0 {
        LedAction::On
    } else if i % 4 == 2 {
        LedAction::Off
    } else {
        LedAction::Wait(delay)
    }
}

/// Blinking `times` times with `delay` milliseconds per half period.
pub open spec fn blink_actions(delay: u32, times: nat) -> Seq<LedAction> {
    Seq::new(4 * times, |i: int| blink_action(delay, i))
}

/// Whether the LED is lit after `actions`, starting from `lit`.
pub open spec fn lit_after(actions: Seq<LedAction>, lit: bool) -> bool
    decreases actions.len(),
{
    if actions.len() == 0 {
        lit
    } else {
        match actions.last() {
            LedAction::On => true,
            LedAction::Off => false,
            LedAction::Wait(_) => lit_after(actions.drop_last(), lit),
        }
    }
}

/// Hands out, one at a time, the LED actions of blinking `times` times.
pub struct Blinker {
    delay: u32,
    times: u32,
    emitted: u64,
}

impl Blinker {
    /// The half period of the blink, in milliseconds.
    pub closed spec fn spec_delay(self) -> u32 {
        self.delay
    }

    /// How many blinks the sequence has.
    pub closed spec fn spec_times(self) -> u32 {
        self.times
    }

    /// How many actions were handed out so far.
    pub closed spec fn spec_emitted(self) -> nat {
        self.emitted as nat
    }

    /// The whole sequence this blinker hands out.
    pub open spec fn plan(self) -> Seq<LedAction> {
        blink_actions(self.spec_delay(), self.spec_times() as nat)
    }

    #[verifier::type_invariant]
    spec fn within_plan(self) -> bool {
        self.emitted <= 4 * (self.times as int)
    }

    /// A blinker for `times` blinks of `delay` milliseconds on and off.
    pub fn new(delay: u32, times: u32) -> (res: Self)
        ensures
            res.spec_delay() == delay,
            res.spec_times() == times,
            res.spec_emitted() == 0,
    {
        Blinker { delay, times, emitted: 0 }
    }

    /// The next action of the sequence, or `None` once it is over.
    pub fn next_action(&mut self) -> (res: Option<LedAction>)
        ensures
            final(self).spec_delay() == old(self).spec_delay(),
            final(self).spec_times() == old(self).spec_times(),
            old(self).spec_emitted() <= old(self).plan().len(),
            old(self).spec_emitted() < old(self).plan().len() ==> {
                &&& res == Some(old(self).plan()[old(self).spec_emitted() as int])
                &&& final(self).spec_emitted() == old(self).spec_emitted() + 1
            },
            old(self).spec_emitted() == old(self).plan().len() ==> {
                &&& res is None
                &&& final(self).spec_emitted() == old(self).spec_emitted()
            },
    {
        proof {
            use_type_invariant(&*self);
        }
        let total: u64 = 4 * (self.times as u64);
        if self.emitted >= total {
            return None;
        }
        let phase = self.emitted % 4;
        let action = if phase == 0 {
            LedAction::On
        } else if phase == 2 {
            LedAction::Off
        } else {
            LedAction::Wait(self.delay)
        };
        self.emitted = self.emitted + 1;
        Some(action)
    }
}

/// Blinking leaves the LED dark: after the whole sequence of at least one
/// blink the LED is off, whatever it was before; with no blink it is as it
/// was.
pub proof fn lemma_blink_ends_dark(delay: u32, times: nat, lit: bool)
    ensures
        lit_after(blink_actions(delay, times), lit) == (if times == 0 { lit } else { false }),
{
    let a = blink_actions(delay, times);
    if times > 0 {
        let k = 4 * times - 1;
        assert(a.last() == blink_action(delay, k));
        assert(k % 4 == 3) by (nonlinear_arith)
            requires
                k == 4 * times - 1,
                times > 0,
        ;
        assert(a.drop_last().last() == blink_action(delay, k - 1));
        assert((k - 1) % 4 == 2) by (nonlinear_arith)
            requires
                k == 4 * times - 1,
                times > 0,
        ;
        assert(lit_after(a.drop_last(), lit) == false);
        assert(lit_after(a, lit) == lit_after(a.drop_last(), lit));
    } else {
        assert(a.len() == 0);
    }
}

/// Each blink turns the LED on once and off once: position `4 k` of the
/// sequence is `On`, position `4 k + 2` is `Off`, and the others wait.
pub proof fn lemma_blink_shape(delay: u32, times: nat, k: int)
    requires
        0 <= k < times,
    ensures
        blink_actions(delay, times)[4 * k] == LedAction::On,
        blink_actions(delay, times)[4 * k + 1] == LedAction::Wait(delay),
        blink_actions(delay, times)[4 * k + 2] == LedAction::Off,
        blink_actions(delay, times)[4 * k + 3] == LedAction::Wait(delay),
{
    assert((4 * k) % 4 == 0 && (4 * k + 1) % 4 == 1 && (4 * k + 2) % 4 == 2 && (4 * k + 3) % 4 == 3) by (nonlinear_arith)
        requires
            0 <= k,
    ;
}

} // verus!

//! The latch between physical keys and gameplay: a key acts once per fresh press, and keys
//! held across a focus change must be released before they act again.
use vstd::prelude::*;

verus! {

/// The latch's state, one bit per key the scene can bind.
pub struct ControlsModel {
    pub pressed: u128,
    pub keys: u128,
    pub rearm: u128,
    pub focused: bool,
    pub jump: bool,
    pub fire: bool,
    pub interact: bool,
}

pub struct GameplayControls {
    pressed: u128,
    keys: u128,
    rearm: u128,
    focused: bool,
    jump: bool,
    fire: bool,
    interact: bool,
}

impl View for GameplayControls {
    type V = ControlsModel;

    closed spec fn view(&self) -> ControlsModel {
        ControlsModel {
            pressed: self.pressed,
            keys: self.keys,
            rearm: self.rearm,
            focused: self.focused,
            jump: self.jump,
            fire: self.fire,
            interact: self.interact,
        }
    }
}

impl Default for GameplayControls {
    fn default() -> (controls: GameplayControls)
        ensures
            controls@ == (ControlsModel {
                pressed: 0,
                keys: 0,
                rearm: 0,
                focused: false,
                jump: false,
                fire: false,
                interact: false,
            }),
    {
        GameplayControls {
            pressed: 0,
            keys: 0,
            rearm: 0,
            focused: false,
            jump: false,
            fire: false,
            interact: false,
        }
    }
}

impl GameplayControls {
    /// Drops every key and edge gameplay could still act on; the physical latch stays.
    pub fn reset(&mut self)
        ensures
            final(self)@ == (ControlsModel {
                keys: 0,
                jump: false,
                fire: false,
                interact: false,
                ..old(self)@
            }),
    {
        self.keys = 0;
        self.jump = false;
        self.fire = false;
        self.interact = false;
    }

    /// After focus may have hidden key releases, every held key must be released before it
    /// acts again.
    pub fn mark_focus_discontinuity(&mut self)
        ensures
            final(self)@ == (ControlsModel { rearm: old(self)@.rearm | old(self)@.pressed, ..old(self)@ }),
    {
        self.rearm = self.rearm | self.pressed;
    }

    /// Records the physical key with bit `bit` going down (`pressed`) or up, and reports
    /// whether this is a fresh press gameplay should act on: not held before and not an OS
    /// repeat. A release clears the key everywhere; a press while unfocused must be
    /// re-armed.
    pub fn hold(&mut self, bit: u128, pressed: bool, repeat: bool) -> (fresh: bool)
        ensures
            fresh == (pressed && old(self)@.pressed & bit == 0 && !repeat),
            final(self)@ == if pressed {
                ControlsModel {
                    pressed: old(self)@.pressed | bit,
                    keys: if fresh {
                        old(self)@.keys | bit
                    } else {
                        old(self)@.keys
                    },
                    rearm: if !old(self)@.focused {
                        old(self)@.rearm | bit
                    } else {
                        old(self)@.rearm
                    },
                    ..old(self)@
                }
            } else {
                ControlsModel {
                    pressed: old(self)@.pressed & !bit,
                    keys: old(self)@.keys & !bit,
                    rearm: old(self)@.rearm & !bit,
                    ..old(self)@
                }
            },
    {
        let fresh = pressed && self.pressed & bit == 0 && !repeat;
        if pressed {
            self.pressed = self.pressed | bit;
        } else {
            self.pressed = self.pressed & !bit;
            self.keys = self.keys & !bit;
            self.rearm = self.rearm & !bit;
            return false;
        }
        if fresh {
            self.keys = self.keys | bit;
        }
        if !self.focused {
            self.rearm = self.rearm | bit;
        }
        fresh
    }
}

/// What a fresh press of a key does besides holding the key.
#[derive(Clone, Copy, Debug, PartialEq, Eq, Structural)]
pub enum KeyAction {
    Jump,
    Interact,
    Nothing,
}

/// An input event as the latch reads it, each key or button already resolved to the bit of
/// the binding it names (`None` when the scene cannot bind it, or the key has no physical
/// position).
#[derive(Clone, Copy, Debug)]
pub enum InputEvent {
    /// The modifier keys changed; `held` is whether Command, Ctrl or Alt is now down.
    ModifiersChanged { held: bool },
    /// A key went down or up; `escape` tells the Escape key, `modified` whether Command,
    /// Ctrl or Alt was down with it, `repeat` an OS repeat.
    Key { bit: Option<u128>, escape: bool, pressed: bool, repeat: bool, modified: bool, action: KeyAction },
    /// A mouse button went down or up; `primary` tells the main button.
    Pointer { bit: Option<u128>, primary: bool, pressed: bool },
    /// The pointer left the window.
    PointerGone,
    /// The window gained or lost focus.
    WindowFocused(bool),
    Other,
}

/// What gameplay reads from the latch in one frame.
pub struct Sample {
    /// Sideways and forward movement, each -1, 0 or 1.
    pub movement: (i8, i8),
    pub keys: u128,
    pub jump: bool,
    pub fire: bool,
    pub interact: bool,
}

/// The event cancels gameplay input for the frame: a modifier chord, Escape, the pointer
/// leaving, or focus going away.
pub open spec fn cancels(e: InputEvent) -> bool {
    match e {
        InputEvent::ModifiersChanged { held } => held,
        InputEvent::Key { escape, pressed, modified, .. } => (escape && pressed) || modified,
        InputEvent::PointerGone => true,
        InputEvent::WindowFocused(f) => !f,
        _ => false,
    }
}

/// A press of `bit` is fresh: not held before and not an OS repeat.
pub open spec fn fresh(c: ControlsModel, bit: u128, pressed: bool, repeat: bool) -> bool {
    pressed && c.pressed & bit == 0 && !repeat
}

/// The latch after key or button `bit` goes down (`pressed`) or up.
pub open spec fn held(c: ControlsModel, bit: u128, pressed: bool, repeat: bool) -> ControlsModel {
    if pressed {
        ControlsModel {
            pressed: c.pressed | bit,
            keys: if fresh(c, bit, pressed, repeat) {
                c.keys | bit
            } else {
                c.keys
            },
            rearm: if !c.focused {
                c.rearm | bit
            } else {
                c.rearm
            },
            ..c
        }
    } else {
        ControlsModel {
            pressed: c.pressed & !bit,
            keys: c.keys & !bit,
            rearm: c.rearm & !bit,
            ..c
        }
    }
}

/// The latch after one event.
pub open spec fn after_event(c: ControlsModel, e: InputEvent) -> ControlsModel {
    match e {
        InputEvent::Pointer { bit: Some(b), primary, pressed } => {
            let n = held(c, b, pressed, false);
            if fresh(c, b, pressed, false) && primary {
                ControlsModel { fire: true, ..n }
            } else {
                n
            }
        },
        InputEvent::Key { bit: Some(b), pressed, repeat, action, .. } => {
            let n = held(c, b, pressed, repeat);
            if fresh(c, b, pressed, repeat) {
                match action {
                    KeyAction::Jump => ControlsModel { jump: true, ..n },
                    KeyAction::Interact => ControlsModel { interact: true, ..n },
                    KeyAction::Nothing => n,
                }
            } else {
                n
            }
        },
        InputEvent::WindowFocused(f) => ControlsModel {
            focused: f,
            rearm: if !f {
                c.rearm | c.pressed
            } else {
                c.rearm
            },
            ..c
        },
        _ => c,
    }
}

/// The latch after the events, in order.
pub open spec fn after_events(c: ControlsModel, events: Seq<InputEvent>) -> ControlsModel
    decreases events.len(),
{
    if events.len() == 0 {
        c
    } else {
        after_event(after_events(c, events.drop_last()), events.last())
    }
}

/// The latch with nothing left for gameplay to act on.
pub open spec fn cleared(c: ControlsModel) -> ControlsModel {
    ControlsModel { keys: 0, jump: false, fire: false, interact: false, ..c }
}

/// One frame's preparation of the latch, from the window's focus, the frame's events, whether
/// a modifier was down before them, whether gameplay may take input at all (`eligible`), and
/// the running game, if any, with whether it takes gameplay input: the latch afterwards and
/// whether the game's queued input must be cleared.
pub open spec fn prepared(
    c: ControlsModel,
    focused: bool,
    events: Seq<InputEvent>,
    modified_before: bool,
    eligible: bool,
    play: Option<bool>,
) -> (ControlsModel, bool) {
    let cancelled = !eligible || !focused || modified_before || exists|i: int|
        0 <= i < events.len() && cancels(#[trigger] events[i]);
    let start = ControlsModel {
        focused,
        rearm: if !focused {
            c.rearm | c.pressed
        } else {
            c.rearm
        },
        jump: false,
        fire: false,
        interact: false,
        ..c
    };
    let run = after_events(start, events);
    match play {
        None => (cleared(run), false),
        Some(accepts) => if cancelled || !accepts {
            (cleared(run), true)
        } else {
            (run, false)
        },
    }
}

/// -1, 0 or 1: `plus` held counts up, `minus` held counts down.
pub open spec fn axis(keys: u128, plus: u128, minus: u128) -> int {
    (if keys & plus != 0 {
        1int
    } else {
        0int
    }) - (if keys & minus != 0 {
        1int
    } else {
        0int
    })
}

impl GameplayControls {
    fn apply_event(&mut self, e: InputEvent)
        ensures
            final(self)@ == after_event(old(self)@, e),
    {
        match e {
            InputEvent::Pointer { bit: Some(b), primary, pressed } => {
                if self.hold(b, pressed, false) && primary {
                    self.fire = true;
                }
            },
            InputEvent::Key { bit: Some(b), pressed, repeat, action, .. } => {
                if self.hold(b, pressed, repeat) {
                    match action {
                        KeyAction::Jump => {
                            self.jump = true;
                        },
                        KeyAction::Interact => {
                            self.interact = true;
                        },
                        KeyAction::Nothing => {},
                    }
                }
            },
            InputEvent::WindowFocused(f) => {
                self.focused = f;
                if !f {
                    self.mark_focus_discontinuity();
                }
            },
            _ => {},
        }
    }

    /// Prepares the latch for a frame, before gameplay reads it: takes the window's focus and
    /// the frame's events, and drops what gameplay may not act on. `play` is the running game,
    /// if any, with whether it takes gameplay input. Returns whether the game's queued
    /// gameplay input must be cleared.
    pub fn prepare(
        &mut self,
        focused: bool,
        events: &[InputEvent],
        modified_before: bool,
        eligible: bool,
        play: Option<bool>,
    ) -> (clear: bool)
        ensures
            (final(self)@, clear) == prepared(
                old(self)@,
                focused,
                events@,
                modified_before,
                eligible,
                play,
            ),
    {
        let mut cancelled = !eligible || !focused || modified_before;
        let mut k: usize = 0;
        while k < events.len()
            invariant
                k <= events@.len(),
                self@ == old(self)@,
                cancelled == (!eligible || !focused || modified_before || exists|i: int|
                    0 <= i < k && cancels(#[trigger] events@[i])),
            decreases events@.len() - k,
        {
            let e = events[k];
            let c = match e {
                InputEvent::ModifiersChanged { held } => held,
                InputEvent::Key { escape, pressed, modified, .. } => (escape && pressed) || modified,
                InputEvent::PointerGone => true,
                InputEvent::WindowFocused(f) => !f,
                _ => false,
            };
            assert(c == cancels(events@[k as int]));
            if c {
                cancelled = true;
            }
            k += 1;
        }
        self.focused = focused;
        if !focused {
            self.mark_focus_discontinuity();
        }
        self.jump = false;
        self.fire = false;
        self.interact = false;
        let ghost start = self@;
        let mut k: usize = 0;
        while k < events.len()
            invariant
                k <= events@.len(),
                self@ == after_events(start, events@.take(k as int)),
            decreases events@.len() - k,
        {
            assert(events@.take(k + 1).drop_last() =~= events@.take(k as int));
            self.apply_event(events[k]);
            k += 1;
        }
        assert(events@.take(events@.len() as int) =~= events@);
        match play {
            None => {
                self.reset();
                false
            },
            Some(accepts) => {
                if cancelled || !accepts {
                    self.reset();
                    true
                } else {
                    false
                }
            },
        }
    }

    /// What gameplay reads this frame; the one-shot edges (jump, fire, interact) are taken.
    /// `right`, `left`, `forward` and `back` are the bits of the movement keys.
    pub fn take_input(&mut self, right: u128, left: u128, forward: u128, back: u128) -> (sample: Sample)
        ensures
            sample.movement.0 == axis(old(self)@.keys, right, left),
            sample.movement.1 == axis(old(self)@.keys, forward, back),
            sample.keys == old(self)@.keys,
            sample.jump == old(self)@.jump,
            sample.fire == old(self)@.fire,
            sample.interact == old(self)@.interact,
            final(self)@ == (ControlsModel { jump: false, fire: false, interact: false, ..old(self)@ }),
    {
        let sideways: i8 = (if self.keys & right != 0 { 1i8 } else { 0i8 }) - (if self.keys & left != 0 { 1i8 } else { 0i8 });
        let ahead: i8 = (if self.keys & forward != 0 { 1i8 } else { 0i8 }) - (if self.keys & back != 0 { 1i8 } else { 0i8 });
        let sample = Sample {
            movement: (sideways, ahead),
            keys: self.keys,
            jump: self.jump,
            fire: self.fire,
            interact: self.interact,
        };
        self.jump = false;
        self.fire = false;
        self.interact = false;
        sample
    }

    /// The held keys whose release focus may have hidden, while the window has focus (the
    /// editor then asks the player to press and release them); none while unfocused.
    pub fn rearm_keys(&self) -> (keys: u128)
        ensures
            keys == if self@.focused {
                self@.rearm
            } else {
                0
            },
    {
        if self.focused {
            self.rearm
        } else {
            0
        }
    }
}

/// The event releases a key or button whose bit overlaps `b`.
pub open spec fn releases(e: InputEvent, b: u128) -> bool {
    match e {
        InputEvent::Key { bit: Some(x), pressed, .. } => !pressed && x & b != 0,
        InputEvent::Pointer { bit: Some(x), pressed, .. } => !pressed && x & b != 0,
        _ => false,
    }
}

proof fn lemma_event_keeps_latch(c: ControlsModel, e: InputEvent, b: u128)
    requires
        c.pressed & b != 0,
        !releases(e, b),
    ensures
        after_event(c, e).pressed & b != 0,
{
    let p = c.pressed;
    match e {
        InputEvent::Key { bit: Some(x), pressed, .. } => {
            if pressed {
                assert((p | x) & b != 0) by (bit_vector)
                    requires
                        p & b != 0,
                ;
            } else {
                assert((p & !x) & b != 0) by (bit_vector)
                    requires
                        p & b != 0,
                        x & b == 0,
                ;
            }
        },
        InputEvent::Pointer { bit: Some(x), pressed, .. } => {
            if pressed {
                assert((p | x) & b != 0) by (bit_vector)
                    requires
                        p & b != 0,
                ;
            } else {
                assert((p & !x) & b != 0) by (bit_vector)
                    requires
                        p & b != 0,
                        x & b == 0,
                ;
            }
        },
        _ => {},
    }
}

proof fn lemma_events_keep_latch(c: ControlsModel, events: Seq<InputEvent>, b: u128)
    requires
        c.pressed & b != 0,
        forall|i: int| 0 <= i < events.len() ==> !releases(#[trigger] events[i], b),
    ensures
        after_events(c, events).pressed & b != 0,
    decreases events.len(),
{
    if events.len() > 0 {
        let rest = events.drop_last();
        assert forall|i: int| 0 <= i < rest.len() implies !releases(#[trigger] rest[i], b) by {
            assert(rest[i] == events[i]);
        }
        lemma_events_keep_latch(c, rest, b);
        lemma_event_keeps_latch(after_events(c, rest), events.last(), b);
    }
}

/// A key held when its release could go unseen stays latched: until a release of it arrives,
/// however many frames are prepared and whatever focus, gating or resets happen, the key
/// remains held, so pressing it again is never fresh and it cannot act.
pub proof fn lemma_held_key_needs_release(
    c: ControlsModel,
    focused: bool,
    events: Seq<InputEvent>,
    modified_before: bool,
    eligible: bool,
    play: Option<bool>,
    b: u128,
    repeat: bool,
)
    requires
        c.pressed & b != 0,
        forall|i: int| 0 <= i < events.len() ==> !releases(#[trigger] events[i], b),
    ensures
        prepared(c, focused, events, modified_before, eligible, play).0.pressed & b != 0,
        !fresh(prepared(c, focused, events, modified_before, eligible, play).0, b, true, repeat),
{
    let start = ControlsModel {
        focused,
        rearm: if !focused {
            c.rearm | c.pressed
        } else {
            c.rearm
        },
        jump: false,
        fire: false,
        interact: false,
        ..c
    };
    lemma_events_keep_latch(start, events, b);
}


/// A held key acts once per press: once a press of a key is recorded, pressing it again
/// (or an OS repeat) is not fresh until it is released; after the release the next press is
/// fresh again. Stated over the `pressed` latch that `hold` tests.
pub proof fn lemma_press_acts_once(pressed: u128, bit: u128)
    requires
        bit != 0,
    ensures
        (pressed | bit) & bit != 0,
        (pressed & !bit) & bit == 0,
{
    assert((pressed | bit) & bit != 0 && (pressed & !bit) & bit == 0) by (bit_vector)
        requires
            bit != 0,
    ;
}

} // verus!

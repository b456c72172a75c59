use bozz_torio::editor::gameplay_input::{GameplayControls, InputEvent, KeyAction, Sample};

// Bits of the bindings the tests use; a scene's key table assigns the real ones.
const W: u128 = 1 << 1;
const A: u128 = 1 << 2;
const S: u128 = 1 << 3;
const D: u128 = 1 << 4;
const SPACE: u128 = 1 << 5;
const E: u128 = 1 << 6;
const THREE: u128 = 1 << 7;
const ARROW_LEFT: u128 = 1 << 8;
const MOUSE_LEFT: u128 = 1 << 9;
const MOUSE_RIGHT: u128 = 1 << 10;

fn key(bit: u128, pressed: bool, repeat: bool) -> InputEvent {
    InputEvent::Key {
        bit: Some(bit),
        escape: false,
        pressed,
        repeat,
        modified: false,
        action: if bit == SPACE {
            KeyAction::Jump
        } else if bit == E {
            KeyAction::Interact
        } else {
            KeyAction::Nothing
        },
    }
}

fn press(bit: u128) -> InputEvent {
    key(bit, true, false)
}

fn release(bit: u128) -> InputEvent {
    key(bit, false, false)
}

fn click(bit: u128, primary: bool) -> InputEvent {
    InputEvent::Pointer { bit: Some(bit), primary, pressed: true }
}

/// A frame with the window focused, gameplay eligible and a game that takes input.
fn frame(controls: &mut GameplayControls, events: &[InputEvent]) -> bool {
    controls.prepare(true, events, false, true, Some(true))
}

fn sample(controls: &mut GameplayControls) -> Sample {
    controls.take_input(D, A, W, S)
}

#[test]
fn left_click_fires_once_and_respects_viewport_gating() {
    let mut controls = GameplayControls::default();
    frame(&mut controls, &[click(MOUSE_LEFT, true)]);
    assert!(sample(&mut controls).fire);
    assert!(!sample(&mut controls).fire, "one shot per click");
    frame(&mut controls, &[click(MOUSE_RIGHT, false)]);
    assert!(!sample(&mut controls).fire, "right-drag only orbits");
    frame(&mut controls, &[InputEvent::Pointer { bit: Some(MOUSE_LEFT), primary: true, pressed: false }]);
    controls.prepare(true, &[click(MOUSE_LEFT, true)], false, false, Some(true));
    assert!(
        !sample(&mut controls).fire,
        "selection and dialogs suppress gameplay fire"
    );
}

#[test]
fn any_bound_button_reaches_gameplay_with_the_focus_latch_intact() {
    let mut controls = GameplayControls::default();
    frame(&mut controls, &[press(THREE), press(ARROW_LEFT)]);
    let first = sample(&mut controls);
    assert!(first.keys & THREE != 0);
    assert!(first.keys & ARROW_LEFT != 0);
    assert!(sample(&mut controls).keys & THREE != 0, "keys are a level");
    // A held key that never released, then refocus: the latch still refuses to rehold it.
    controls.prepare(false, &[], false, true, Some(true));
    assert_eq!(controls.rearm_keys(), 0, "hide while unfocused");
    frame(&mut controls, &[InputEvent::WindowFocused(true)]);
    assert_eq!(controls.rearm_keys(), THREE | ARROW_LEFT);
    frame(&mut controls, &[press(THREE)]);
    assert_eq!(sample(&mut controls).keys & THREE, 0);
    // The release arrives locally, so the next press is fresh again.
    frame(&mut controls, &[release(THREE)]);
    frame(&mut controls, &[press(THREE)]);
    assert!(sample(&mut controls).keys & THREE != 0);
}

#[test]
fn physical_keys_ignore_layout_and_clear_at_gameplay_boundaries() {
    let mut controls = GameplayControls::default();
    let input = [press(W), press(SPACE)];
    frame(&mut controls, &input);
    let first = sample(&mut controls);
    assert_eq!(first.movement, (0, 1));
    assert!(first.jump);
    assert!(!sample(&mut controls).jump);
    frame(&mut controls, &input);
    assert!(!sample(&mut controls).jump, "raw repeats are not yet marked");
    // The caller gates viewport, dialogs, loading, layer and keyboard UI with eligible.
    controls.prepare(true, &[], false, false, Some(true));
    frame(&mut controls, &[press(W)]);
    assert_eq!(sample(&mut controls).movement, (0, 0));
    frame(&mut controls, &[release(W)]);
    frame(&mut controls, &input);
    assert_eq!(sample(&mut controls).movement, (0, 1));
    assert!(!controls.prepare(true, &[], false, true, None));
    frame(&mut controls, &[]);
    assert_eq!(sample(&mut controls).movement, (0, 0));
    frame(&mut controls, &[release(W)]);
    frame(&mut controls, &input);
    frame(&mut controls, &[InputEvent::WindowFocused(false)]);
    assert_eq!(sample(&mut controls).movement, (0, 0));
}

#[test]
fn missing_focus_release_hints_only_pending_keys_and_recovers_after_local_release() {
    let mut controls = GameplayControls::default();
    let presses = [press(W), press(SPACE)];
    frame(&mut controls, &presses);
    // No release is delivered while away.
    controls.prepare(false, &[], false, true, Some(true));
    assert_eq!(controls.rearm_keys(), 0, "hide while unfocused");
    frame(&mut controls, &[InputEvent::WindowFocused(true)]);
    assert_eq!(controls.rearm_keys(), W | SPACE);
    // A fresh press after an unseen release is indistinguishable from raw repeats.
    frame(&mut controls, &presses);
    let held = sample(&mut controls);
    assert_eq!(held.movement, (0, 0));
    assert!(!held.jump);
    frame(&mut controls, &[release(W)]);
    assert_eq!(controls.rearm_keys(), SPACE);
    frame(&mut controls, &[release(SPACE)]);
    assert_eq!(controls.rearm_keys(), 0);
    frame(&mut controls, &presses);
    let again = sample(&mut controls);
    assert_eq!(again.movement, (0, 1));
    assert!(again.jump);
}

#[test]
fn focus_repeats_stay_cancelled_and_same_window_cancellation_has_no_focus_hint() {
    let mut controls = GameplayControls::default();
    let presses = [press(W), press(SPACE)];
    // Viewport/modal gating and pointer loss are not focus discontinuities.
    frame(&mut controls, &presses);
    controls.prepare(true, &[], false, false, Some(true));
    assert_eq!(controls.rearm_keys(), 0);
    frame(&mut controls, &presses);
    let held = sample(&mut controls);
    assert_eq!(held.movement, (0, 0));
    assert!(!held.jump);
    controls.prepare(true, &[InputEvent::PointerGone], false, false, Some(true));
    assert_eq!(controls.rearm_keys(), 0);
    frame(&mut controls, &presses);
    assert_eq!(sample(&mut controls).movement, (0, 0));
    frame(
        &mut controls,
        &[InputEvent::WindowFocused(false), InputEvent::WindowFocused(true)],
    );
    for _ in 0..3 {
        frame(&mut controls, &presses);
        let held = sample(&mut controls);
        assert_eq!(held.movement, (0, 0));
        assert!(!held.jump, "unmarked held repeats cannot rearm");
        assert_ne!(controls.rearm_keys(), 0);
    }
    // Observed releases remove the hint.
    frame(&mut controls, &[release(W), release(SPACE)]);
    frame(
        &mut controls,
        &[InputEvent::WindowFocused(false), InputEvent::WindowFocused(true)],
    );
    assert_eq!(controls.rearm_keys(), 0, "no latched keys: no irrelevant hint");
}

#[test]
fn incoming_modifiers_cancel_queued_movement_jump_and_orbit_before_advance() {
    let mut controls = GameplayControls::default();
    let clear = frame(&mut controls, &[InputEvent::ModifiersChanged { held: true }]);
    assert!(clear);
    let mut controls = GameplayControls::default();
    assert!(controls.prepare(true, &[press(W)], true, true, Some(true)));
    assert_eq!(sample(&mut controls).movement, (0, 0));
    let escape = InputEvent::Key {
        bit: None,
        escape: true,
        pressed: true,
        repeat: false,
        modified: false,
        action: KeyAction::Nothing,
    };
    assert!(frame(&mut controls, &[escape]));
    assert!(!frame(&mut controls, &[]));
    assert!(controls.prepare(true, &[], false, true, Some(false)));
}

#[test]
fn interact_and_strafe_read_from_their_keys() {
    let mut controls = GameplayControls::default();
    frame(&mut controls, &[press(E), press(A)]);
    let s = sample(&mut controls);
    assert!(s.interact);
    assert_eq!(s.movement, (-1, 0));
    frame(&mut controls, &[press(D)]);
    assert_eq!(sample(&mut controls).movement, (0, 0));
}

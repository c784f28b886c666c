use tiled_life::input::{
    GamepadEvent, GamepadSnapshot, HybridInputState, InputSource, NavIntent, WindowInputEvent,
    PRESS_AMOUNT_ONE,
};

const KEY_W: u32 = 87;
const AXIS_LEFT_STICK_UP: u32 = 0;

fn idle_pad() -> GamepadSnapshot {
    GamepadSnapshot { axis_amounts: vec![(AXIS_LEFT_STICK_UP, 0)], buttons: vec![] }
}

fn up_binding() -> HybridInputState {
    HybridInputState::new(
        vec![(
            vec![InputSource::key(KEY_W), InputSource::axis(AXIS_LEFT_STICK_UP)],
            NavIntent::Up,
        )],
        vec![],
    )
}

/// The analog response curve, as the frame driver applies it before
/// snapshotting: dead zone, then an exponential ramp, in thousandths.
fn curve_thousandths(value: f32, dead_zone: f32) -> u32 {
    let shaped = 10f32.powf((value - dead_zone).max(0.0)) - 1.0;
    (shaped * 1000.0).round() as u32
}

#[test]
fn key_pressed_axis_at_rest_reads_full() {
    let mut s = up_binding();
    assert!(s.handle_winit(WindowInputEvent::Key { key: KEY_W, pressed: true }));
    assert_eq!(s.pressed_amount(NavIntent::Up, &idle_pad()), PRESS_AMOUNT_ONE);
}

#[test]
fn key_released_axis_deflected_reads_curve_output() {
    let mut s = up_binding();
    s.handle_winit(WindowInputEvent::Key { key: KEY_W, pressed: true });
    s.handle_winit(WindowInputEvent::Key { key: KEY_W, pressed: false });
    // Stick at 0.5 past the dead zone: the curve alone decides the value.
    let curved = curve_thousandths(0.7, 0.2);
    assert_eq!(curved, 2162);
    let pad = GamepadSnapshot { axis_amounts: vec![(AXIS_LEFT_STICK_UP, curved)], buttons: vec![] };
    assert_eq!(s.pressed_amount(NavIntent::Up, &pad), curved);
}

#[test]
fn pressed_amount_is_max_not_sum() {
    let mut s = up_binding();
    s.handle_winit(WindowInputEvent::Key { key: KEY_W, pressed: true });
    let curved = 2162;
    let pad = GamepadSnapshot { axis_amounts: vec![(AXIS_LEFT_STICK_UP, curved)], buttons: vec![] };
    // Key at 1000 and axis at 2162 together report the larger, never 3162.
    assert_eq!(s.pressed_amount(NavIntent::Up, &pad), curved);
}

#[test]
fn key_state_persists_between_events() {
    let mut s = up_binding();
    s.handle_winit(WindowInputEvent::Key { key: KEY_W, pressed: true });
    let pad = idle_pad();
    assert_eq!(s.pressed_amount(NavIntent::Up, &pad), PRESS_AMOUNT_ONE);
    assert_eq!(s.pressed_amount(NavIntent::Up, &pad), PRESS_AMOUNT_ONE);
    s.handle_winit(WindowInputEvent::Key { key: KEY_W, pressed: false });
    assert_eq!(s.pressed_amount(NavIntent::Up, &pad), 0);
}

#[test]
fn unrelated_events_are_not_consumed() {
    let mut s = up_binding();
    assert!(!s.handle_winit(WindowInputEvent::Key { key: 999, pressed: true }));
    assert!(!s.handle_winit(WindowInputEvent::MouseButton { button: 1, pressed: true }));
    assert_eq!(s.pressed_amount(NavIntent::Up, &idle_pad()), 0);
}

#[test]
fn intents_are_independent() {
    let mut s = HybridInputState::new(
        vec![
            (vec![InputSource::key(KEY_W)], NavIntent::Up),
            (vec![InputSource::key(83)], NavIntent::Down),
        ],
        vec![],
    );
    s.handle_winit(WindowInputEvent::Key { key: KEY_W, pressed: true });
    let pad = GamepadSnapshot { axis_amounts: vec![], buttons: vec![] };
    assert_eq!(s.pressed_amount(NavIntent::Up, &pad), PRESS_AMOUNT_ONE);
    assert_eq!(s.pressed_amount(NavIntent::Down, &pad), 0);
    assert_eq!(s.pressed_amount(NavIntent::Left, &pad), 0);
}

#[test]
fn mouse_button_binding_reads_full_when_held() {
    let mut s = HybridInputState::new(
        vec![(
            vec![InputSource::Mouse { state: false, button: 2 }],
            NavIntent::Left,
        )],
        vec![],
    );
    let pad = GamepadSnapshot { axis_amounts: vec![], buttons: vec![] };
    assert_eq!(s.pressed_amount(NavIntent::Left, &pad), 0);
    assert!(s.handle_winit(WindowInputEvent::MouseButton { button: 2, pressed: true }));
    assert_eq!(s.pressed_amount(NavIntent::Left, &pad), PRESS_AMOUNT_ONE);
}

#[test]
fn gamepad_button_is_polled_from_snapshot() {
    let s = HybridInputState::new(
        vec![(vec![InputSource::GamepadButton { button: 3 }], NavIntent::Right)],
        vec![],
    );
    let held = GamepadSnapshot { axis_amounts: vec![], buttons: vec![(3, true)] };
    let released = GamepadSnapshot { axis_amounts: vec![], buttons: vec![(3, false)] };
    let absent = GamepadSnapshot { axis_amounts: vec![], buttons: vec![] };
    assert_eq!(s.pressed_amount(NavIntent::Right, &held), PRESS_AMOUNT_ONE);
    assert_eq!(s.pressed_amount(NavIntent::Right, &released), 0);
    assert_eq!(s.pressed_amount(NavIntent::Right, &absent), 0);
}

#[test]
fn listener_rows_enqueue_intents() {
    let mut s = HybridInputState::new(
        vec![],
        vec![(vec![InputSource::key(10)], NavIntent::Up)],
    );
    assert_eq!(s.next_event(), None);
    assert!(s.handle_winit(WindowInputEvent::Key { key: 10, pressed: true }));
    assert_eq!(s.next_event(), Some(NavIntent::Up));
    assert_eq!(s.next_event(), None);
}

#[test]
fn queued_intents_come_out_oldest_first() {
    let mut s = HybridInputState::new(
        vec![],
        vec![
            (vec![InputSource::key(10)], NavIntent::Up),
            (vec![InputSource::key(10)], NavIntent::Down),
        ],
    );
    s.handle_winit(WindowInputEvent::Key { key: 10, pressed: true });
    assert_eq!(s.next_event(), Some(NavIntent::Up));
    assert_eq!(s.next_event(), Some(NavIntent::Down));
    assert_eq!(s.next_event(), None);
}

#[test]
fn gamepad_events_enqueue_binding_intents() {
    let mut s = HybridInputState::new(
        vec![(vec![InputSource::GamepadButton { button: 5 }], NavIntent::Down)],
        vec![],
    );
    let events = vec![
        GamepadEvent::ButtonPressed { button: 5 },
        GamepadEvent::Other,
        GamepadEvent::ButtonPressed { button: 9 },
    ];
    s.update_gamepad(&events);
    assert_eq!(s.next_event(), Some(NavIntent::Down));
    assert_eq!(s.next_event(), None);
}

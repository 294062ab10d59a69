use axis_input::Binding;
use axis_input::BindingInputEvent;
use axis_input::DeadZone;
use axis_input::Device;
use axis_input::InputMap;
use axis_input::RawInputEvent;
use axis_input::ScrollUnit;
use axis_input::UNIT;
use axis_input::use_dead_zone;

fn ev(device: Device, binding: Binding, value: i64, immediate: bool) -> BindingInputEvent {
    BindingInputEvent { binding, device, immediate, value }
}

#[test]
fn axis_fans_out_into_positive_half() {
    let mut map = InputMap::default();
    let raw = vec![RawInputEvent::GamepadAxis { gamepad: 1, axis: 0, value: 600 }];
    let events = map.binding_inputs_system(&raw);
    let d = Device::Gamepad(1);
    assert_eq!(
        events,
        vec![
            ev(d, Binding::GamepadAxis(0), 600, false),
            ev(d, Binding::GamepadAxisPos(0), 600, false),
        ]
    );
}

#[test]
fn axis_zero_crossing_terminates_the_old_side() {
    let mut map = InputMap::default();
    let d = Device::Gamepad(1);
    let raw = vec![RawInputEvent::GamepadAxis { gamepad: 1, axis: 0, value: 600 }];
    map.binding_inputs_system(&raw);

    // Moving to the negative side emits the raw value, a terminating zero
    // for the positive half, and the magnitude on the negative half.
    let raw = vec![RawInputEvent::GamepadAxis { gamepad: 1, axis: 0, value: -300 }];
    let events = map.binding_inputs_system(&raw);
    assert_eq!(
        events,
        vec![
            ev(d, Binding::GamepadAxis(0), -300, false),
            ev(d, Binding::GamepadAxisPos(0), 0, false),
            ev(d, Binding::GamepadAxisNeg(0), 300, false),
        ]
    );
}

#[test]
fn key_auto_repeat_is_suppressed() {
    let mut map = InputMap::default();
    let raw = vec![
        RawInputEvent::KeyPressed { key: 10 },
        RawInputEvent::KeyPressed { key: 10 },
    ];
    let events = map.binding_inputs_system(&raw);
    assert_eq!(events, vec![ev(Device::Other, Binding::Key(10), UNIT, false)]);

    // A release always emits a zero, and the next press is an edge again.
    let raw = vec![
        RawInputEvent::KeyReleased { key: 10 },
        RawInputEvent::KeyPressed { key: 10 },
    ];
    let events = map.binding_inputs_system(&raw);
    assert_eq!(
        events,
        vec![
            ev(Device::Other, Binding::Key(10), 0, false),
            ev(Device::Other, Binding::Key(10), UNIT, false),
        ]
    );
}

#[test]
fn release_without_press_still_emits_zero() {
    let mut map = InputMap::default();
    let raw = vec![RawInputEvent::KeyReleased { key: 10 }];
    let events = map.binding_inputs_system(&raw);
    assert_eq!(events, vec![ev(Device::Other, Binding::Key(10), 0, false)]);
}

#[test]
fn mouse_motion_fans_out_signed_halves() {
    let mut map = InputMap::default();
    let raw = vec![RawInputEvent::MouseMove { x: 5, y: -3 }];
    let events = map.binding_inputs_system(&raw);
    assert_eq!(
        events,
        vec![
            ev(Device::Other, Binding::MouseMoveX, 5, true),
            ev(Device::Other, Binding::MouseMovePosX, 5, true),
            ev(Device::Other, Binding::MouseMoveY, -3, true),
            ev(Device::Other, Binding::MouseMoveNegY, -3, true),
        ]
    );
}

#[test]
fn scroll_units_pick_their_bindings() {
    let mut map = InputMap::default();
    let raw = vec![
        RawInputEvent::MouseScroll { unit: ScrollUnit::Line, x: 0, y: 2 },
        RawInputEvent::MouseScroll { unit: ScrollUnit::Pixel, x: -4, y: 0 },
    ];
    let events = map.binding_inputs_system(&raw);
    assert_eq!(
        events,
        vec![
            ev(Device::Other, Binding::MouseScrollLineY, 2, true),
            ev(Device::Other, Binding::MouseScrollLinePosY, 2, true),
            ev(Device::Other, Binding::MouseScrollPixelX, -4, true),
            ev(Device::Other, Binding::MouseScrollPixelNegX, -4, true),
        ]
    );
}

#[test]
fn device_dead_zone_shapes_gamepad_values() {
    let mut map = InputMap::default();
    let d = Device::Gamepad(1);
    map.set_device_dead_zone(
        d,
        Binding::GamepadAxis(0),
        DeadZone { pos_min: 200, pos_max: 1000, neg_min: -200, neg_max: -1000 },
    );
    // Inside the dead band the axis reads zero (and stays silent on the
    // derived halves).
    let raw = vec![RawInputEvent::GamepadAxis { gamepad: 1, axis: 0, value: 150 }];
    let events = map.binding_inputs_system(&raw);
    assert_eq!(events, vec![ev(d, Binding::GamepadAxis(0), 0, false)]);

    // Above it the distance into the band rescales toward full deflection:
    // (600 - 200) / (1000 - 200) of the way up.
    let raw = vec![RawInputEvent::GamepadAxis { gamepad: 1, axis: 0, value: 600 }];
    let events = map.binding_inputs_system(&raw);
    assert_eq!(
        events,
        vec![
            ev(d, Binding::GamepadAxis(0), 500, false),
            ev(d, Binding::GamepadAxisPos(0), 500, false),
        ]
    );
}

#[test]
fn dead_zone_zero_inside_band() {
    let z = DeadZone { pos_min: 400, pos_max: 1000, neg_min: -400, neg_max: -1000 };
    assert_eq!(use_dead_zone(0, Some(&z)), 0);
    assert_eq!(use_dead_zone(400, Some(&z)), 0);
    assert_eq!(use_dead_zone(-400, Some(&z)), 0);
    assert_eq!(use_dead_zone(399, Some(&z)), 0);
    assert_eq!(use_dead_zone(-399, Some(&z)), 0);
}

#[test]
fn dead_zone_ramps_and_clamps() {
    let z = DeadZone { pos_min: 400, pos_max: 1000, neg_min: -400, neg_max: -1000 };
    // The distance into the band is divided by the band's length: zero at
    // the inner edge, exactly full deflection at the outer edge and beyond.
    assert_eq!(use_dead_zone(700, Some(&z)), (700 - 400) * 1000 / 600);
    assert_eq!(use_dead_zone(1000, Some(&z)), 1000);
    assert_eq!(use_dead_zone(5000, Some(&z)), 1000);
    assert_eq!(use_dead_zone(-700, Some(&z)), -((700 - 400) * 1000 / 600));
    assert_eq!(use_dead_zone(-1000, Some(&z)), -1000);
    assert_eq!(use_dead_zone(-5000, Some(&z)), -1000);
}

#[test]
fn dead_zone_stays_within_unit() {
    // Even a heavily offset zone never normalizes past full deflection.
    let z = DeadZone { pos_min: 500, pos_max: 1000, neg_min: -500, neg_max: -1000 };
    assert_eq!(use_dead_zone(1000, Some(&z)), 1000);
    assert_eq!(use_dead_zone(750, Some(&z)), 500);
    assert_eq!(use_dead_zone(-1000, Some(&z)), -1000);
    assert_eq!(use_dead_zone(-750, Some(&z)), -500);
}

#[test]
fn mouse_button_repeat_is_suppressed() {
    let mut map = InputMap::default();
    let raw = vec![
        RawInputEvent::MouseButtonPressed { button: 2 },
        RawInputEvent::MouseButtonPressed { button: 2 },
    ];
    let events = map.binding_inputs_system(&raw);
    assert_eq!(events, vec![ev(Device::Other, Binding::MouseButton(2), UNIT, false)]);

    // A release always emits a zero, and the next press is an edge again.
    let raw = vec![
        RawInputEvent::MouseButtonReleased { button: 2 },
        RawInputEvent::MouseButtonPressed { button: 2 },
    ];
    let events = map.binding_inputs_system(&raw);
    assert_eq!(
        events,
        vec![
            ev(Device::Other, Binding::MouseButton(2), 0, false),
            ev(Device::Other, Binding::MouseButton(2), UNIT, false),
        ]
    );
}

#[test]
fn default_dead_zone_is_identity_inside_range() {
    let z = DeadZone::default();
    assert_eq!(use_dead_zone(600, Some(&z)), 600);
    assert_eq!(use_dead_zone(-600, Some(&z)), -600);
    assert_eq!(use_dead_zone(1000, Some(&z)), 1000);
    assert_eq!(use_dead_zone(-1000, Some(&z)), -1000);
    assert_eq!(use_dead_zone(0, Some(&z)), 0);
}

#[test]
fn no_dead_zone_passes_values_through() {
    assert_eq!(use_dead_zone(12345, None), 12345);
    assert_eq!(use_dead_zone(-12345, None), -12345);
}

#[test]
fn binding_device_predicates() {
    assert!(Binding::Key(1).is_other_device());
    assert!(Binding::MouseButton(0).is_other_device());
    assert!(Binding::MouseScrollLinePosY.is_other_device());
    assert!(!Binding::GamepadButton(0).is_other_device());
    assert!(Binding::GamepadAxis(0).is_gamepad_device());
    assert!(Binding::GamepadAxisNeg(2).is_gamepad_device());
    assert!(!Binding::Key(1).is_gamepad_device());
    assert!(!Binding::Unbound.is_gamepad_device());
    assert!(!Binding::Unbound.is_other_device());
}

#[test]
fn outer_names_cover_the_families() {
    assert_eq!(Binding::Key(3).get_outer_string(), "Key");
    assert_eq!(Binding::GamepadAxis(1).get_outer_string(), "GamepadAxis");
    assert_eq!(Binding::GamepadAxisPos(1).get_outer_string(), "GamepadAxisPos");
    assert_eq!(Binding::MouseScrollPixelX.get_outer_string(), "MouseScrollX");
    assert_eq!(Binding::MouseScrollLineNegY.get_outer_string(), "MouseScrollLineNegY");
    assert_eq!(Binding::Unbound.get_outer_string(), "Unbound");
}

#[test]
fn binding_names_render_with_codes() {
    assert_eq!(Binding::Key(32).to_string(), "Key(32)");
    assert_eq!(Binding::GamepadAxisPos(0).to_string(), "GamepadAxisPos(0)");
    assert_eq!(Binding::GamepadButton(4294967295).to_string(), "GamepadButton(4294967295)");
    assert_eq!(Binding::MouseMoveX.to_string(), "MouseMoveX");
    assert_eq!(Binding::Key(1080).get_inner_string(), "1080");
    assert_eq!(Binding::MouseScrollLineY.get_inner_string(), "MouseScrollLineY");
}

#[test]
fn binding_names_parse_back() {
    assert_eq!(Binding::from_str("Key(32)"), Some(Binding::Key(32)));
    assert_eq!(Binding::from_str("GamepadAxis(2)"), Some(Binding::GamepadAxis(2)));
    assert_eq!(Binding::from_str("GamepadAxisNeg(0)"), Some(Binding::GamepadAxisNeg(0)));
    assert_eq!(Binding::from_str("MouseScrollPosX"), Some(Binding::MouseScrollPixelPosX));
    assert_eq!(Binding::from_str("Unbound"), Some(Binding::Unbound));
    assert_eq!(Binding::from_str("Key(4294967295)"), Some(Binding::Key(4294967295)));
    // Rejected: empty code, stray text, overflowing code, unknown name.
    assert_eq!(Binding::from_str("Key()"), None);
    assert_eq!(Binding::from_str("Key(12x)"), None);
    assert_eq!(Binding::from_str("Key(4294967296)"), None);
    assert_eq!(Binding::from_str("Elbow"), None);
    assert_eq!(Binding::from_str(""), None);
}

#[test]
fn binding_name_round_trip_samples() {
    let samples = vec![
        Binding::Key(0),
        Binding::Key(999),
        Binding::GamepadAxis(7),
        Binding::GamepadAxisPos(7),
        Binding::GamepadAxisNeg(7),
        Binding::GamepadButton(12),
        Binding::MouseButton(2),
        Binding::MouseMoveNegY,
        Binding::MouseScrollPixelNegX,
        Binding::MouseScrollLinePosY,
        Binding::Unbound,
    ];
    for b in samples {
        assert_eq!(Binding::from_str(b.to_string().as_str()), Some(b));
    }
}

use axis_input::Binding;
use axis_input::BindingInputEvent;
use axis_input::Device;
use axis_input::InputMap;
use axis_input::InputMapEvent;
use axis_input::MappingBind;
use axis_input::RawInputEvent;

fn bind(mapping: u32, bindings: Vec<Binding>, scale: i64) -> MappingBind {
    MappingBind { mapping, bindings, scale, primary_dead: 0, modifier_dead: 0 }
}

fn tick(
    map: &mut InputMap,
    raw: Vec<RawInputEvent>,
    owners: Vec<(u64, i32)>,
) -> Vec<InputMapEvent> {
    let inputs: Vec<BindingInputEvent> = map.binding_inputs_system(&raw);
    map.mapping_event_system(&raw, &inputs, &owners, 16).unwrap()
}

#[test]
fn shared_keyboard_fans_out_to_every_owner() {
    let mut map = InputMap::default();
    map.set_bindings(0, &vec![bind(1, vec![Binding::Key(5)], 1000)]);
    map.set_bindings(1, &vec![bind(2, vec![Binding::Key(5)], 1000)]);

    // The keyboard channel is ownerless: both owners' mappings fire.
    let events = tick(&mut map, vec![RawInputEvent::KeyPressed { key: 5 }], vec![]);
    assert_eq!(
        events,
        vec![
            InputMapEvent::ValueChanged { mapping: 1, val: 1000, owner: 0 },
            InputMapEvent::JustPressed { mapping: 1, dir: 1, owner: 0 },
            InputMapEvent::ValueChanged { mapping: 2, val: 1000, owner: 1 },
            InputMapEvent::JustPressed { mapping: 2, dir: 1, owner: 1 },
        ]
    );
}

#[test]
fn unowned_gamepad_goes_nowhere() {
    let mut map = InputMap::default();
    map.set_bindings(0, &vec![bind(1, vec![Binding::GamepadButton(3)], 1000)]);
    // No ownership row for gamepad 9: its events are dropped.
    let events = tick(
        &mut map,
        vec![RawInputEvent::GamepadButton { gamepad: 9, button: 3, value: 1000 }],
        vec![],
    );
    assert_eq!(events, vec![]);
    assert_eq!(map.mapping_value(0, 1), 0);
}

#[test]
fn impulse_pulse_restores_held_direction() {
    let mut map = InputMap::default();
    map.set_bindings(
        0,
        &vec![
            bind(1, vec![Binding::Key(5)], 1000),
            bind(1, vec![Binding::MouseMoveX], 1000),
        ],
    );
    let events = tick(&mut map, vec![RawInputEvent::KeyPressed { key: 5 }], vec![]);
    assert_eq!(events.len(), 2);

    // A negative impulse against a positively held mapping: the hold is
    // released, the impulse pulses, and the hold is pressed again.
    let events = tick(&mut map, vec![RawInputEvent::MouseMove { x: -5, y: 0 }], vec![]);
    assert_eq!(
        events,
        vec![
            InputMapEvent::TempValueChanged { mapping: 1, val: -5, owner: 0 },
            InputMapEvent::JustReleased { mapping: 1, dir: 1, owner: 0 },
            InputMapEvent::JustPressed { mapping: 1, dir: -1, owner: 0 },
            InputMapEvent::JustReleased { mapping: 1, dir: -1, owner: 0 },
            InputMapEvent::JustPressed { mapping: 1, dir: 1, owner: 0 },
        ]
    );
    // The held state is untouched.
    assert_eq!(map.mapping_value(0, 1), 1000);
}

#[test]
fn capture_hysteresis_needs_start_and_end_thresholds() {
    let mut map = InputMap::default();
    let pad = Device::Gamepad(1);
    map.set_capture_active(pad, true);
    // Exclude the raw axis so only its positive half is captured.
    map.set_capture_excludes(vec![Binding::GamepadAxis(0)]);

    let axis = |v: i64| vec![RawInputEvent::GamepadAxis { gamepad: 1, axis: 0, value: v }];

    // Below the start threshold of 0.4 nothing joins the chord.
    assert_eq!(tick(&mut map, axis(300), vec![]), vec![]);
    // Above it the half-axis joins.
    assert_eq!(
        tick(&mut map, axis(500), vec![]),
        vec![InputMapEvent::BindPressed {
            device: pad,
            bindings: vec![Binding::GamepadAxisPos(0)],
        }]
    );
    // Falling between the thresholds keeps the chord (hysteresis).
    assert_eq!(tick(&mut map, axis(300), vec![]), vec![]);
    // Only below the end threshold of 0.2 is the chord released.
    assert_eq!(
        tick(&mut map, axis(100), vec![]),
        vec![InputMapEvent::BindReleased {
            device: pad,
            bindings: vec![Binding::GamepadAxisPos(0)],
        }]
    );
}

#[test]
fn capture_include_list_limits_capture() {
    let mut map = InputMap::default();
    map.set_capture_active(Device::Other, true);
    map.set_capture_includes(vec![Binding::Key(5)]);

    // A key absent from the non-empty include list never captures.
    assert_eq!(tick(&mut map, vec![RawInputEvent::KeyPressed { key: 6 }], vec![]), vec![]);
    assert_eq!(
        tick(&mut map, vec![RawInputEvent::KeyPressed { key: 5 }], vec![]),
        vec![InputMapEvent::BindPressed {
            device: Device::Other,
            bindings: vec![Binding::Key(5)],
        }]
    );
}

#[test]
fn modifier_dead_threshold_gates_the_chord() {
    let mut map = InputMap::default();
    map.set_bindings(
        0,
        &vec![MappingBind {
            mapping: 1,
            bindings: vec![Binding::GamepadButton(1), Binding::GamepadButton(2)],
            scale: 1000,
            primary_dead: 0,
            modifier_dead: 500,
        }],
    );
    let owners = vec![(7u64, 0i32)];
    let button = |b: u32, v: i64| vec![RawInputEvent::GamepadButton {
        gamepad: 7,
        button: b,
        value: v,
    }];

    // The modifier is held too lightly: below its dead threshold it does
    // not count, and the chord stays silent.
    assert_eq!(tick(&mut map, button(1, 300), owners.clone()), vec![]);
    assert_eq!(tick(&mut map, button(2, 1000), owners.clone()), vec![]);
    assert_eq!(map.mapping_value(0, 1), 0);

    // Pressed firmly, the modifier counts and the next primary event fires.
    assert_eq!(tick(&mut map, button(1, 700), owners.clone()), vec![]);
    assert_eq!(
        tick(&mut map, button(2, 1000), owners),
        vec![
            InputMapEvent::ValueChanged { mapping: 1, val: 1000, owner: 0 },
            InputMapEvent::JustPressed { mapping: 1, dir: 1, owner: 0 },
        ]
    );
}

#[test]
fn more_modifiers_win_chord_contention() {
    let mut map = InputMap::default();
    map.set_bindings(
        0,
        &vec![
            bind(1, vec![Binding::Key(9)], 1000),
            bind(2, vec![Binding::Key(8), Binding::Key(9)], 1000),
        ],
    );
    // With the modifier held, only the longer chord takes the primary.
    let events = tick(&mut map, vec![RawInputEvent::KeyPressed { key: 8 }], vec![]);
    assert_eq!(events, vec![]);
    let events = tick(&mut map, vec![RawInputEvent::KeyPressed { key: 9 }], vec![]);
    assert_eq!(
        events,
        vec![
            InputMapEvent::ValueChanged { mapping: 2, val: 1000, owner: 0 },
            InputMapEvent::JustPressed { mapping: 2, dir: 1, owner: 0 },
        ]
    );
    assert_eq!(map.mapping_value(0, 1), 0);
}

#[test]
fn sticky_chord_survives_modifier_release_of_competitor() {
    let mut map = InputMap::default();
    map.set_bindings(
        0,
        &vec![
            bind(1, vec![Binding::Key(9)], 1000),
            bind(2, vec![Binding::Key(8), Binding::Key(9)], 1000),
        ],
    );
    // The bare chord is selected while the modifier is up...
    let events = tick(&mut map, vec![RawInputEvent::KeyPressed { key: 9 }], vec![]);
    assert_eq!(
        events,
        vec![
            InputMapEvent::ValueChanged { mapping: 1, val: 1000, owner: 0 },
            InputMapEvent::JustPressed { mapping: 1, dir: 1, owner: 0 },
        ]
    );
    // ... and pressing the modifier later does not steal the held primary:
    // the active chord continues until it releases.
    let events = tick(&mut map, vec![RawInputEvent::KeyPressed { key: 8 }], vec![]);
    assert_eq!(events, vec![]);
    let events = tick(&mut map, vec![RawInputEvent::KeyReleased { key: 9 }], vec![]);
    assert_eq!(
        events,
        vec![
            InputMapEvent::ValueChanged { mapping: 1, val: 0, owner: 0 },
            InputMapEvent::JustReleased { mapping: 1, dir: 1, owner: 0 },
        ]
    );
}

#[test]
fn opposite_contributions_cancel_and_flip() {
    let mut map = InputMap::default();
    map.set_bindings(
        0,
        &vec![
            bind(1, vec![Binding::Key(5)], 1000),
            bind(1, vec![Binding::Key(6)], -1000),
        ],
    );
    let events = tick(&mut map, vec![RawInputEvent::KeyPressed { key: 5 }], vec![]);
    assert_eq!(events.len(), 2);
    // The opposite key cancels the aggregate to zero: a release fires.
    let events = tick(&mut map, vec![RawInputEvent::KeyPressed { key: 6 }], vec![]);
    assert_eq!(
        events,
        vec![
            InputMapEvent::ValueChanged { mapping: 1, val: 0, owner: 0 },
            InputMapEvent::JustReleased { mapping: 1, dir: 1, owner: 0 },
        ]
    );
    // Releasing the positive key leaves the negative side pressed.
    let events = tick(&mut map, vec![RawInputEvent::KeyReleased { key: 5 }], vec![]);
    assert_eq!(
        events,
        vec![
            InputMapEvent::ValueChanged { mapping: 1, val: -1000, owner: 0 },
            InputMapEvent::JustPressed { mapping: 1, dir: -1, owner: 0 },
        ]
    );
}

#[test]
fn axis_half_press_drives_mapping_end_to_end() {
    let mut map = InputMap::default();
    map.set_bindings(0, &vec![bind(1, vec![Binding::GamepadAxisPos(0)], 1000)]);
    let owners = vec![(7u64, 0i32)];

    let events = tick(
        &mut map,
        vec![RawInputEvent::GamepadAxis { gamepad: 7, axis: 0, value: 600 }],
        owners.clone(),
    );
    assert_eq!(
        events,
        vec![
            InputMapEvent::ValueChanged { mapping: 1, val: 600, owner: 0 },
            InputMapEvent::JustPressed { mapping: 1, dir: 1, owner: 0 },
        ]
    );

    // Crossing to the negative side: the synthesized positive-half zero
    // releases the mapping.
    let events = tick(
        &mut map,
        vec![RawInputEvent::GamepadAxis { gamepad: 7, axis: 0, value: -300 }],
        owners,
    );
    assert_eq!(
        events,
        vec![
            InputMapEvent::ValueChanged { mapping: 1, val: 0, owner: 0 },
            InputMapEvent::JustReleased { mapping: 1, dir: 1, owner: 0 },
        ]
    );
}

#[test]
fn capture_chord_can_restart_after_release() {
    let mut map = InputMap::default();
    map.set_capture_active(Device::Other, true);
    let press = |k: u32| vec![RawInputEvent::KeyPressed { key: k }];
    let release = |k: u32| vec![RawInputEvent::KeyReleased { key: k }];

    assert_eq!(tick(&mut map, press(1), vec![]).len(), 1);
    assert_eq!(tick(&mut map, release(1), vec![]).len(), 1);
    // After a full release the next press starts a fresh chord.
    assert_eq!(
        tick(&mut map, press(2), vec![]),
        vec![InputMapEvent::BindPressed {
            device: Device::Other,
            bindings: vec![Binding::Key(2)],
        }]
    );
}

#[test]
fn leaving_capture_reenables_mappings() {
    let mut map = InputMap::default();
    map.set_bindings(0, &vec![bind(1, vec![Binding::Key(5)], 1000)]);
    map.set_capture_active(Device::Other, true);
    let events = tick(&mut map, vec![RawInputEvent::KeyPressed { key: 5 }], vec![]);
    assert_eq!(events.len(), 1);
    assert!(matches!(events[0], InputMapEvent::BindPressed { .. }));

    map.set_capture_active(Device::Other, false);
    let events = tick(&mut map, vec![RawInputEvent::KeyReleased { key: 5 }], vec![]);
    assert_eq!(events, vec![]);
    // Out of capture mode the key drives its mapping again.
    let events = tick(&mut map, vec![RawInputEvent::KeyPressed { key: 5 }], vec![]);
    assert_eq!(
        events,
        vec![
            InputMapEvent::ValueChanged { mapping: 1, val: 1000, owner: 0 },
            InputMapEvent::JustPressed { mapping: 1, dir: 1, owner: 0 },
        ]
    );
}

#[test]
fn stale_modifier_does_not_select_chords_during_capture() {
    let mut map = InputMap::default();
    let key_ctrl = 17u32;
    let key_s = 31u32;
    map.set_bindings(
        0,
        &vec![bind(1, vec![Binding::Key(key_ctrl), Binding::Key(key_s)], 1000)],
    );
    // The modifier is pressed before capture begins, so its cached value
    // survives into capture mode.
    let events = tick(&mut map, vec![RawInputEvent::KeyPressed { key: key_ctrl }], vec![]);
    assert_eq!(events, vec![]);

    // Only the primary is excluded from capture; the modifier still takes
    // part, so while the device captures it must not count as held.
    map.set_capture_excludes(vec![Binding::Key(key_s)]);
    map.set_capture_active(Device::Other, true);
    let events = tick(&mut map, vec![RawInputEvent::KeyPressed { key: key_s }], vec![]);
    assert_eq!(events, vec![]);
    assert_eq!(map.mapping_value(0, 1), 0);

    // With the modifier excluded from capture as well, the chord works
    // during capture.
    map.set_capture_excludes(vec![Binding::Key(key_s), Binding::Key(key_ctrl)]);
    let events = tick(
        &mut map,
        vec![
            RawInputEvent::KeyReleased { key: key_s },
            RawInputEvent::KeyPressed { key: key_s },
        ],
        vec![],
    );
    assert_eq!(
        events,
        vec![
            InputMapEvent::ValueChanged { mapping: 1, val: 1000, owner: 0 },
            InputMapEvent::JustPressed { mapping: 1, dir: 1, owner: 0 },
        ]
    );
}

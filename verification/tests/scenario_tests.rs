use axis_input::Binding;
use axis_input::BindingInputEvent;
use axis_input::Device;
use axis_input::InputMap;
use axis_input::InputMapError;
use axis_input::InputMapEvent;
use axis_input::MappingBind;
use axis_input::RawInputEvent;

const JUMP: u32 = 1;
const SAVE: u32 = 2;
const KEY_SPACE: u32 = 32;
const KEY_LCTRL: u32 = 17;
const KEY_S: u32 = 31;

fn bind(mapping: u32, bindings: Vec<Binding>, scale: i64) -> MappingBind {
    MappingBind { mapping, bindings, scale, primary_dead: 0, modifier_dead: 0 }
}

fn tick(
    map: &mut InputMap,
    raw: Vec<RawInputEvent>,
    owners: Vec<(u64, i32)>,
) -> Vec<InputMapEvent> {
    let inputs: Vec<BindingInputEvent> = map.binding_inputs_system(&raw);
    map.mapping_event_system(&raw, &inputs, &owners, 16).unwrap()
}

#[test]
fn single_key_press_and_release() {
    let mut map = InputMap::default();
    map.set_bindings(0, &vec![bind(JUMP, vec![Binding::Key(KEY_SPACE)], 1000)]);

    let events = tick(&mut map, vec![RawInputEvent::KeyPressed { key: KEY_SPACE }], vec![]);
    assert_eq!(
        events,
        vec![
            InputMapEvent::ValueChanged { mapping: JUMP, val: 1000, owner: 0 },
            InputMapEvent::JustPressed { mapping: JUMP, dir: 1, owner: 0 },
        ]
    );
    assert_eq!(map.mapping_value(0, JUMP), 1000);

    let events = tick(&mut map, vec![RawInputEvent::KeyReleased { key: KEY_SPACE }], vec![]);
    assert_eq!(
        events,
        vec![
            InputMapEvent::ValueChanged { mapping: JUMP, val: 0, owner: 0 },
            InputMapEvent::JustReleased { mapping: JUMP, dir: 1, owner: 0 },
        ]
    );
    assert_eq!(map.mapping_value(0, JUMP), 0);
}

#[test]
fn chord_modifier_release_cascade() {
    let mut map = InputMap::default();
    map.set_bindings(
        0,
        &vec![bind(SAVE, vec![Binding::Key(KEY_LCTRL), Binding::Key(KEY_S)], 1000)],
    );

    let events = tick(&mut map, vec![RawInputEvent::KeyPressed { key: KEY_LCTRL }], vec![]);
    assert_eq!(events, vec![]);

    let events = tick(&mut map, vec![RawInputEvent::KeyPressed { key: KEY_S }], vec![]);
    assert_eq!(
        events,
        vec![
            InputMapEvent::ValueChanged { mapping: SAVE, val: 1000, owner: 0 },
            InputMapEvent::JustPressed { mapping: SAVE, dir: 1, owner: 0 },
        ]
    );

    // Releasing the modifier silences the chord, though S itself was never
    // released.
    let events = tick(&mut map, vec![RawInputEvent::KeyReleased { key: KEY_LCTRL }], vec![]);
    assert_eq!(
        events,
        vec![
            InputMapEvent::ValueChanged { mapping: SAVE, val: 0, owner: 0 },
            InputMapEvent::JustReleased { mapping: SAVE, dir: 1, owner: 0 },
        ]
    );
}

#[test]
fn chord_needs_modifier_held_first() {
    let mut map = InputMap::default();
    map.set_bindings(
        0,
        &vec![bind(SAVE, vec![Binding::Key(KEY_LCTRL), Binding::Key(KEY_S)], 1000)],
    );
    // S alone: the chord's modifier is not held, nothing fires.
    let events = tick(&mut map, vec![RawInputEvent::KeyPressed { key: KEY_S }], vec![]);
    assert_eq!(events, vec![]);
    assert_eq!(map.mapping_value(0, SAVE), 0);
}

#[test]
fn capture_chord_accumulates_and_releases() {
    let mut map = InputMap::default();
    map.set_capture_active(Device::Other, true);
    let key_w = 87u32;
    let key_shift = 16u32;

    let events = tick(&mut map, vec![RawInputEvent::KeyPressed { key: key_w }], vec![]);
    assert_eq!(
        events,
        vec![InputMapEvent::BindPressed {
            device: Device::Other,
            bindings: vec![Binding::Key(key_w)],
        }]
    );

    let events = tick(&mut map, vec![RawInputEvent::KeyPressed { key: key_shift }], vec![]);
    assert_eq!(
        events,
        vec![InputMapEvent::BindPressed {
            device: Device::Other,
            bindings: vec![Binding::Key(key_w), Binding::Key(key_shift)],
        }]
    );

    let events = tick(&mut map, vec![RawInputEvent::KeyReleased { key: key_w }], vec![]);
    assert_eq!(
        events,
        vec![InputMapEvent::BindReleased {
            device: Device::Other,
            bindings: vec![Binding::Key(key_w), Binding::Key(key_shift)],
        }]
    );
}

#[test]
fn capture_respects_exclude_list() {
    let mut map = InputMap::default();
    map.set_bindings(0, &vec![bind(JUMP, vec![Binding::Key(KEY_SPACE)], 1000)]);
    map.set_capture_excludes(vec![Binding::Key(KEY_SPACE)]);
    map.set_capture_active(Device::Other, true);

    // An excluded binding never joins a capture chord; it still drives its
    // mapping while the device is in capture mode.
    let events = tick(&mut map, vec![RawInputEvent::KeyPressed { key: KEY_SPACE }], vec![]);
    assert_eq!(
        events,
        vec![
            InputMapEvent::ValueChanged { mapping: JUMP, val: 1000, owner: 0 },
            InputMapEvent::JustPressed { mapping: JUMP, dir: 1, owner: 0 },
        ]
    );
}

#[test]
fn capture_entry_silences_pressed_mappings() {
    let mut map = InputMap::default();
    map.set_bindings(0, &vec![bind(JUMP, vec![Binding::Key(KEY_SPACE)], 1000)]);
    let events = tick(&mut map, vec![RawInputEvent::KeyPressed { key: KEY_SPACE }], vec![]);
    assert_eq!(events.len(), 2);
    assert_eq!(map.mapping_value(0, JUMP), 1000);

    // Entering capture mode releases the held mapping in the same tick.
    map.set_capture_active(Device::Other, true);
    let events = tick(&mut map, vec![], vec![]);
    assert_eq!(
        events,
        vec![
            InputMapEvent::ValueChanged { mapping: JUMP, val: 0, owner: 0 },
            InputMapEvent::JustReleased { mapping: JUMP, dir: 1, owner: 0 },
        ]
    );
    assert_eq!(map.mapping_value(0, JUMP), 0);
}

#[test]
fn gamepad_disconnect_releases_mapping() {
    let mut map = InputMap::default();
    map.set_bindings(0, &vec![bind(JUMP, vec![Binding::GamepadButton(5)], 1000)]);
    let owners = vec![(7u64, 0i32)];

    let events = tick(
        &mut map,
        vec![RawInputEvent::GamepadButton { gamepad: 7, button: 5, value: 1000 }],
        owners.clone(),
    );
    assert_eq!(
        events,
        vec![
            InputMapEvent::ValueChanged { mapping: JUMP, val: 1000, owner: 0 },
            InputMapEvent::JustPressed { mapping: JUMP, dir: 1, owner: 0 },
        ]
    );

    // Disconnecting the sole contributor releases it in the same tick.
    let events = tick(
        &mut map,
        vec![RawInputEvent::GamepadDisconnected { gamepad: 7 }],
        owners.clone(),
    );
    assert_eq!(
        events,
        vec![
            InputMapEvent::ValueChanged { mapping: JUMP, val: 0, owner: 0 },
            InputMapEvent::JustReleased { mapping: JUMP, dir: 1, owner: 0 },
        ]
    );
}

#[test]
fn owner_change_releases_former_owners_mapping() {
    let mut map = InputMap::default();
    map.set_bindings(0, &vec![bind(JUMP, vec![Binding::GamepadButton(5)], 1000)]);

    let events = tick(
        &mut map,
        vec![RawInputEvent::GamepadButton { gamepad: 7, button: 5, value: 1000 }],
        vec![(7, 0)],
    );
    assert_eq!(events.len(), 2);

    // The gamepad moves to owner 1: owner 0's contribution is cleaned up.
    let events = tick(&mut map, vec![], vec![(7, 1)]);
    assert_eq!(
        events,
        vec![
            InputMapEvent::ValueChanged { mapping: JUMP, val: 0, owner: 0 },
            InputMapEvent::JustReleased { mapping: JUMP, dir: 1, owner: 0 },
        ]
    );
}

#[test]
fn rebind_replaces_configuration_and_releases() {
    let mut map = InputMap::default();
    map.set_bindings(0, &vec![bind(JUMP, vec![Binding::Key(KEY_SPACE)], 1000)]);
    let events = tick(&mut map, vec![RawInputEvent::KeyPressed { key: KEY_SPACE }], vec![]);
    assert_eq!(events.len(), 2);

    // Wholesale reconfiguration while the mapping is held: the stale
    // contribution is pruned and a compensating release is emitted.
    map.set_bindings(0, &vec![]);
    let events = tick(&mut map, vec![], vec![]);
    assert_eq!(
        events,
        vec![
            InputMapEvent::ValueChanged { mapping: JUMP, val: 0, owner: 0 },
            InputMapEvent::JustReleased { mapping: JUMP, dir: 1, owner: 0 },
        ]
    );
}

#[test]
fn negative_scale_gives_negative_direction() {
    let mut map = InputMap::default();
    map.set_bindings(0, &vec![bind(JUMP, vec![Binding::Key(KEY_SPACE)], -1000)]);
    let events = tick(&mut map, vec![RawInputEvent::KeyPressed { key: KEY_SPACE }], vec![]);
    assert_eq!(
        events,
        vec![
            InputMapEvent::ValueChanged { mapping: JUMP, val: -1000, owner: 0 },
            InputMapEvent::JustPressed { mapping: JUMP, dir: -1, owner: 0 },
        ]
    );
}

#[test]
fn two_active_chords_on_one_primary_fail_the_tick() {
    let mut map = InputMap::default();
    let key_a = 65u32;
    let key_b = 66u32;
    let key_p = 80u32;
    map.set_bindings(
        0,
        &vec![
            bind(1, vec![Binding::Key(key_a), Binding::Key(key_p)], 1000),
            bind(2, vec![Binding::Key(key_b), Binding::Key(key_p)], 1000),
        ],
    );
    // Hold both modifiers, then the shared primary: the tied chords both
    // become active.
    let events = tick(
        &mut map,
        vec![
            RawInputEvent::KeyPressed { key: key_a },
            RawInputEvent::KeyPressed { key: key_b },
        ],
        vec![],
    );
    assert_eq!(events, vec![]);
    let events = tick(&mut map, vec![RawInputEvent::KeyPressed { key: key_p }], vec![]);
    assert_eq!(events.len(), 4);

    // The next event on that primary finds two distinct active chords: an
    // internal-consistency violation that stops the tick.
    let raw = vec![RawInputEvent::KeyReleased { key: key_p }];
    let mut map2 = map;
    let inputs = map2.binding_inputs_system(&raw);
    let r = map2.mapping_event_system(&raw, &inputs, &vec![], 16);
    assert_eq!(
        r,
        Err(InputMapError::MultipleActiveChords {
            device: Device::Other,
            binding: Binding::Key(key_p),
        })
    );
}

#[test]
fn repeat_fires_after_delay_and_interval() {
    let mut map = InputMap::default();
    map.set_bindings(0, &vec![bind(JUMP, vec![Binding::Key(KEY_SPACE)], 1000)]);
    map.set_repeat(JUMP, 100, 200);

    // Press: dir 1; repeat timer starts cold.
    let events = tick(&mut map, vec![RawInputEvent::KeyPressed { key: KEY_SPACE }], vec![]);
    assert_eq!(events.len(), 2);

    let tick_ms = |map: &mut InputMap, delta: i64| -> Vec<InputMapEvent> {
        let raw: Vec<RawInputEvent> = vec![];
        let inputs = map.binding_inputs_system(&raw);
        map.mapping_event_system(&raw, &inputs, &vec![], delta).unwrap()
    };

    // 100 of initial delay accumulate, then the timer arms.
    assert_eq!(tick_ms(&mut map, 100), vec![]);
    assert_eq!(tick_ms(&mut map, 0), vec![]);
    // Armed: the interval is 200 at full deflection.
    assert_eq!(tick_ms(&mut map, 100), vec![]);
    assert_eq!(
        tick_ms(&mut map, 100),
        vec![InputMapEvent::Repeat { mapping: JUMP, dir: 1, delay: 200, owner: 0 }]
    );
    // The accumulator reset on firing.
    assert_eq!(tick_ms(&mut map, 100), vec![]);
    assert_eq!(
        tick_ms(&mut map, 100),
        vec![InputMapEvent::Repeat { mapping: JUMP, dir: 1, delay: 200, owner: 0 }]
    );
}

#[test]
fn repeat_rate_scales_with_magnitude() {
    let mut map = InputMap::default();
    map.set_bindings(0, &vec![bind(JUMP, vec![Binding::GamepadButton(5)], 1000)]);
    map.set_repeat(JUMP, 0, 200);
    let owners = vec![(7u64, 0i32)];

    // Held at half deflection: the interval doubles to 400.
    let events = tick(
        &mut map,
        vec![RawInputEvent::GamepadButton { gamepad: 7, button: 5, value: 500 }],
        owners.clone(),
    );
    assert_eq!(events.len(), 2);

    let tick_ms = |map: &mut InputMap, delta: i64| -> Vec<InputMapEvent> {
        let raw: Vec<RawInputEvent> = vec![];
        let inputs = map.binding_inputs_system(&raw);
        map.mapping_event_system(&raw, &inputs, &owners, delta).unwrap()
    };

    // First quiet tick arms the timer (no initial delay).
    assert_eq!(tick_ms(&mut map, 0), vec![]);
    assert_eq!(tick_ms(&mut map, 200), vec![]);
    assert_eq!(
        tick_ms(&mut map, 200),
        vec![InputMapEvent::Repeat { mapping: JUMP, dir: 1, delay: 400, owner: 0 }]
    );
}

#[test]
fn immediate_impulse_pulses_and_latches_nothing() {
    let mut map = InputMap::default();
    map.set_bindings(0, &vec![bind(JUMP, vec![Binding::MouseMoveX], 1000)]);

    let events = tick(&mut map, vec![RawInputEvent::MouseMove { x: 250, y: 0 }], vec![]);
    assert_eq!(
        events,
        vec![
            InputMapEvent::TempValueChanged { mapping: JUMP, val: 250, owner: 0 },
            InputMapEvent::JustPressed { mapping: JUMP, dir: 1, owner: 0 },
            InputMapEvent::JustReleased { mapping: JUMP, dir: 1, owner: 0 },
        ]
    );
    // Nothing persists between ticks.
    assert_eq!(map.mapping_value(0, JUMP), 0);
    let events = tick(&mut map, vec![], vec![]);
    assert_eq!(events, vec![]);
}

#[test]
fn two_contributions_sum_into_the_aggregate() {
    let mut map = InputMap::default();
    map.set_bindings(
        0,
        &vec![
            bind(JUMP, vec![Binding::Key(KEY_SPACE)], 1000),
            bind(JUMP, vec![Binding::Key(KEY_S)], 1000),
        ],
    );
    let events = tick(&mut map, vec![RawInputEvent::KeyPressed { key: KEY_SPACE }], vec![]);
    assert_eq!(events.len(), 2);
    let events = tick(&mut map, vec![RawInputEvent::KeyPressed { key: KEY_S }], vec![]);
    // The aggregate is the sum of both contributions; the direction did not
    // change, so only the value event fires.
    assert_eq!(
        events,
        vec![InputMapEvent::ValueChanged { mapping: JUMP, val: 2000, owner: 0 }]
    );
    assert_eq!(map.mapping_value(0, JUMP), 2000);
}

#[test]
fn primary_dead_zeroes_small_values() {
    let mut map = InputMap::default();
    map.set_bindings(
        0,
        &vec![MappingBind {
            mapping: JUMP,
            bindings: vec![Binding::GamepadButton(5)],
            scale: 1000,
            primary_dead: 300,
            modifier_dead: 0,
        }],
    );
    let owners = vec![(7u64, 0i32)];
    let events = tick(
        &mut map,
        vec![RawInputEvent::GamepadButton { gamepad: 7, button: 5, value: 200 }],
        owners.clone(),
    );
    // Below the primary dead threshold the contribution is stored as zero.
    assert_eq!(events, vec![]);
    assert_eq!(map.mapping_value(0, JUMP), 0);

    let events = tick(
        &mut map,
        vec![RawInputEvent::GamepadButton { gamepad: 7, button: 5, value: 400 }],
        owners,
    );
    assert_eq!(
        events,
        vec![
            InputMapEvent::ValueChanged { mapping: JUMP, val: 400, owner: 0 },
            InputMapEvent::JustPressed { mapping: JUMP, dir: 1, owner: 0 },
        ]
    );
}

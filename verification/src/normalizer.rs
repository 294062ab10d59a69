//! The binding normalizer: raw device signals to canonical binding events.
//!
//! Once per tick the normalizer turns the host's raw signals into a flat
//! list of `BindingInputEvent`s: key and mouse-button edges are
//! press/release filtered, gamepad values pass through their configured
//! dead zones, every gamepad axis fans out into derived positive and
//! negative bindings with zero-crossing edges, and mouse motion and scroll
//! deltas become single-tick impulses over up to six bindings each.

use vstd::prelude::*;

use crate::dead_zone::dead_zone_spec;
use crate::dead_zone::use_dead_zone;
use crate::engine::InputMap;
use crate::events::BindingInputEvent;
use crate::events::RawInputEvent;
use crate::events::ScrollUnit;
use crate::tables::axis_get;
use crate::tables::axis_last_spec;
use crate::tables::axis_set;
use crate::tables::dz_get;
use crate::tables::dz_spec;
use crate::tables::key_held;
use crate::tables::key_insert;
use crate::tables::key_remove;
use crate::tables::not_axis;
use crate::tables::not_key;
use crate::values::Binding;
use crate::values::DeadZone;
use crate::values::Device;
use crate::values::RAW_MAX;
use crate::values::UNIT;
use crate::values::VAL_MAX;

verus! {

/// A canonical binding event, by its parts.
pub open spec fn bev(device: Device, binding: Binding, value: i64, immediate: bool) -> BindingInputEvent {
    BindingInputEvent { binding, device, immediate, value }
}

/// A raw value after the dead zone configured for `(d, b)`, if any.
pub open spec fn dz_value(
    dzs: Seq<(Device, Binding, DeadZone)>,
    d: Device,
    b: Binding,
    raw: i64,
) -> i64 {
    match dz_spec(dzs, d, b) {
        Some(z) => dead_zone_spec(raw as int, z) as i64,
        None => raw,
    }
}

/// The impulse fan-out of one signed delta: the raw binding when non-zero,
/// the positive-only binding when positive, the negative-only binding when
/// negative (the delta keeps its sign in all three).
pub open spec fn fan3(d: Device, rb: Binding, pb: Binding, nb: Binding, v: i64) -> Seq<
    BindingInputEvent,
> {
    (if v != 0 {
        seq![bev(d, rb, v, true)]
    } else {
        Seq::empty()
    }) + (if v > 0 {
        seq![bev(d, pb, v, true)]
    } else {
        Seq::empty()
    }) + (if v < 0 {
        seq![bev(d, nb, v, true)]
    } else {
        Seq::empty()
    })
}

/// Whether a raw signal's values are within the accepted range.
pub open spec fn raw_bounded(raw: RawInputEvent) -> bool {
    match raw {
        RawInputEvent::GamepadButton { value, .. } => -RAW_MAX <= value <= RAW_MAX,
        RawInputEvent::GamepadAxis { value, .. } => -RAW_MAX <= value <= RAW_MAX,
        RawInputEvent::MouseMove { x, y } => -RAW_MAX <= x <= RAW_MAX && -RAW_MAX <= y <= RAW_MAX,
        RawInputEvent::MouseScroll { x, y, .. } => -RAW_MAX <= x <= RAW_MAX && -RAW_MAX <= y
            <= RAW_MAX,
        _ => true,
    }
}

/// The canonical binding events one raw signal produces, given the
/// configured dead zones, the axis cache and the held key and mouse-button
/// sets.
pub open spec fn norm_events(
    dzs: Seq<(Device, Binding, DeadZone)>,
    axes: Seq<(Device, u32, i64)>,
    keys: Seq<u32>,
    buttons: Seq<u32>,
    raw: RawInputEvent,
) -> Seq<BindingInputEvent> {
    match raw {
        RawInputEvent::GamepadConnected { .. } => Seq::empty(),
        RawInputEvent::GamepadDisconnected { .. } => Seq::empty(),
        RawInputEvent::GamepadButton { gamepad, button, value } => {
            let d = Device::Gamepad(gamepad);
            let b = Binding::GamepadButton(button);
            seq![bev(d, b, dz_value(dzs, d, b, value), false)]
        },
        RawInputEvent::GamepadAxis { gamepad, axis, value } => {
            let d = Device::Gamepad(gamepad);
            let b = Binding::GamepadAxis(axis);
            let v = dz_value(dzs, d, b, value);
            let last = axis_last_spec(axes, d, axis);
            seq![bev(d, b, v, false)] + (if v > 0 || (last > 0 && v <= 0) {
                seq![bev(d, Binding::GamepadAxisPos(axis), if v > 0 { v } else { 0 }, false)]
            } else {
                Seq::empty()
            }) + (if v < 0 || (last < 0 && v >= 0) {
                seq![
                    bev(
                        d,
                        Binding::GamepadAxisNeg(axis),
                        if v < 0 { (0 - v as int) as i64 } else { 0 },
                        false,
                    ),
                ]
            } else {
                Seq::empty()
            })
        },
        RawInputEvent::KeyPressed { key } => {
            if keys.contains(key) {
                Seq::empty()
            } else {
                seq![bev(Device::Other, Binding::Key(key), UNIT, false)]
            }
        },
        RawInputEvent::KeyReleased { key } => seq![
            bev(Device::Other, Binding::Key(key), 0, false),
        ],
        RawInputEvent::MouseButtonPressed { button } => {
            if buttons.contains(button) {
                Seq::empty()
            } else {
                seq![bev(Device::Other, Binding::MouseButton(button), UNIT, false)]
            }
        },
        RawInputEvent::MouseButtonReleased { button } => seq![
            bev(Device::Other, Binding::MouseButton(button), 0, false),
        ],
        RawInputEvent::MouseMove { x, y } => fan3(
            Device::Other,
            Binding::MouseMoveX,
            Binding::MouseMovePosX,
            Binding::MouseMoveNegX,
            x,
        ) + fan3(
            Device::Other,
            Binding::MouseMoveY,
            Binding::MouseMovePosY,
            Binding::MouseMoveNegY,
            y,
        ),
        RawInputEvent::MouseScroll { unit, x, y } => match unit {
            ScrollUnit::Line => fan3(
                Device::Other,
                Binding::MouseScrollLineX,
                Binding::MouseScrollLinePosX,
                Binding::MouseScrollLineNegX,
                x,
            ) + fan3(
                Device::Other,
                Binding::MouseScrollLineY,
                Binding::MouseScrollLinePosY,
                Binding::MouseScrollLineNegY,
                y,
            ),
            ScrollUnit::Pixel => fan3(
                Device::Other,
                Binding::MouseScrollPixelX,
                Binding::MouseScrollPixelPosX,
                Binding::MouseScrollPixelNegX,
                x,
            ) + fan3(
                Device::Other,
                Binding::MouseScrollPixelY,
                Binding::MouseScrollPixelPosY,
                Binding::MouseScrollPixelNegY,
                y,
            ),
        },
    }
}

/// The held-key set after one raw signal.
pub open spec fn norm_keys_after(keys: Seq<u32>, raw: RawInputEvent) -> Seq<u32> {
    match raw {
        RawInputEvent::KeyPressed { key } => if keys.contains(key) {
            keys
        } else {
            keys.push(key)
        },
        RawInputEvent::KeyReleased { key } => keys.filter(not_key(key)),
        _ => keys,
    }
}

/// The held mouse-button set after one raw signal.
pub open spec fn norm_buttons_after(buttons: Seq<u32>, raw: RawInputEvent) -> Seq<u32> {
    match raw {
        RawInputEvent::MouseButtonPressed { button } => if buttons.contains(button) {
            buttons
        } else {
            buttons.push(button)
        },
        RawInputEvent::MouseButtonReleased { button } => buttons.filter(not_key(button)),
        _ => buttons,
    }
}

/// The axis cache after one raw signal.
pub open spec fn norm_axes_after(
    dzs: Seq<(Device, Binding, DeadZone)>,
    axes: Seq<(Device, u32, i64)>,
    raw: RawInputEvent,
) -> Seq<(Device, u32, i64)> {
    match raw {
        RawInputEvent::GamepadAxis { gamepad, axis, value } => {
            let d = Device::Gamepad(gamepad);
            axes.filter(not_axis(d, axis)).push(
                (d, axis, dz_value(dzs, d, Binding::GamepadAxis(axis), value)),
            )
        },
        _ => axes,
    }
}

/// The normalizer run over a whole tick's raw signals: the final axis
/// cache, the final held key and mouse-button sets, and the concatenated
/// binding events.
pub open spec fn norm_run(
    dzs: Seq<(Device, Binding, DeadZone)>,
    axes: Seq<(Device, u32, i64)>,
    keys: Seq<u32>,
    buttons: Seq<u32>,
    raws: Seq<RawInputEvent>,
) -> (Seq<(Device, u32, i64)>, Seq<u32>, Seq<u32>, Seq<BindingInputEvent>)
    decreases raws.len(),
{
    if raws.len() == 0 {
        (axes, keys, buttons, Seq::empty())
    } else {
        let evs = norm_events(dzs, axes, keys, buttons, raws[0]);
        let axes1 = norm_axes_after(dzs, axes, raws[0]);
        let keys1 = norm_keys_after(keys, raws[0]);
        let buttons1 = norm_buttons_after(buttons, raws[0]);
        let rest = norm_run(dzs, axes1, keys1, buttons1, raws.drop_first());
        (rest.0, rest.1, rest.2, evs + rest.3)
    }
}

/// Appends the impulse fan-out of one signed delta.
fn emit_fan3(
    out: &mut Vec<BindingInputEvent>,
    d: Device,
    rb: Binding,
    pb: Binding,
    nb: Binding,
    v: i64,
)
    requires
        -RAW_MAX <= v <= RAW_MAX,
    ensures
        final(out)@ == old(out)@ + fan3(d, rb, pb, nb, v),
{
    if v != 0 {
        out.push(BindingInputEvent { binding: rb, device: d, immediate: true, value: v });
    }
    if v > 0 {
        out.push(BindingInputEvent { binding: pb, device: d, immediate: true, value: v });
    }
    if v < 0 {
        out.push(BindingInputEvent { binding: nb, device: d, immediate: true, value: v });
    }
    assert(out@ =~= old(out)@ + fan3(d, rb, pb, nb, v));
}

impl InputMap {
    /// Normalizes one tick's raw device signals into canonical binding
    /// events, updating the held-key, held-button and last-axis caches on
    /// the way.
    ///
    /// Every produced value is within `VAL_MAX`; nothing outside the
    /// normalizer's own caches changes.
    #[verifier::rlimit(80)]
    pub fn binding_inputs_system(&mut self, raw: &Vec<RawInputEvent>) -> (r: Vec<
        BindingInputEvent,
    >)
        requires
            old(self).wf(),
            forall|i: int| 0 <= i < raw@.len() ==> raw_bounded(#[trigger] raw@[i]),
        ensures
            final(self).wf(),
            final(self).norm.axis_lasts@ == norm_run(
                old(self).cfg.dead_zones@,
                old(self).norm.axis_lasts@,
                old(self).norm.key_lasts@,
                old(self).norm.button_lasts@,
                raw@,
            ).0,
            final(self).norm.key_lasts@ == norm_run(
                old(self).cfg.dead_zones@,
                old(self).norm.axis_lasts@,
                old(self).norm.key_lasts@,
                old(self).norm.button_lasts@,
                raw@,
            ).1,
            final(self).norm.button_lasts@ == norm_run(
                old(self).cfg.dead_zones@,
                old(self).norm.axis_lasts@,
                old(self).norm.key_lasts@,
                old(self).norm.button_lasts@,
                raw@,
            ).2,
            r@ == norm_run(
                old(self).cfg.dead_zones@,
                old(self).norm.axis_lasts@,
                old(self).norm.key_lasts@,
                old(self).norm.button_lasts@,
                raw@,
            ).3,
            forall|i: int| 0 <= i < r@.len() ==> -VAL_MAX <= (#[trigger] r@[i]).value <= VAL_MAX,
            final(self).cfg == old(self).cfg,
            final(self).run == old(self).run,
    {
        let ghost dzs = self.cfg.dead_zones@;
        let ghost full = norm_run(
            dzs,
            self.norm.axis_lasts@,
            self.norm.key_lasts@,
            self.norm.button_lasts@,
            raw@,
        );
        let mut out: Vec<BindingInputEvent> = Vec::new();
        let mut i: usize = 0;
        assert(raw@.skip(0) =~= raw@);
        while i < raw.len()
            invariant
                i <= raw.len(),
                self.cfg == old(self).cfg,
                self.run == old(self).run,
                dzs == self.cfg.dead_zones@,
                old(self).wf(),
                forall|j: int| 0 <= j < raw@.len() ==> raw_bounded(#[trigger] raw@[j]),
                full == norm_run(
                    dzs,
                    old(self).norm.axis_lasts@,
                    old(self).norm.key_lasts@,
                    old(self).norm.button_lasts@,
                    raw@,
                ),
                full.0 == norm_run(
                    dzs,
                    self.norm.axis_lasts@,
                    self.norm.key_lasts@,
                    self.norm.button_lasts@,
                    raw@.skip(i as int),
                ).0,
                full.1 == norm_run(
                    dzs,
                    self.norm.axis_lasts@,
                    self.norm.key_lasts@,
                    self.norm.button_lasts@,
                    raw@.skip(i as int),
                ).1,
                full.2 == norm_run(
                    dzs,
                    self.norm.axis_lasts@,
                    self.norm.key_lasts@,
                    self.norm.button_lasts@,
                    raw@.skip(i as int),
                ).2,
                full.3 == out@ + norm_run(
                    dzs,
                    self.norm.axis_lasts@,
                    self.norm.key_lasts@,
                    self.norm.button_lasts@,
                    raw@.skip(i as int),
                ).3,
                forall|j: int|
                    0 <= j < out@.len() ==> -VAL_MAX <= (#[trigger] out@[j]).value <= VAL_MAX,
            decreases raw.len() - i,
        {
            let ghost axes0 = self.norm.axis_lasts@;
            let ghost keys0 = self.norm.key_lasts@;
            let ghost buttons0 = self.norm.button_lasts@;
            let ghost out0 = out@;
            proof {
                assert(raw@.skip(i as int)[0] == raw@[i as int]);
                assert(raw@.skip(i as int).drop_first() =~= raw@.skip(i + 1));
                assert(raw_bounded(raw@[i as int]));
            }
            let ev = raw[i];
            match ev {
                RawInputEvent::GamepadConnected { .. } => {},
                RawInputEvent::GamepadDisconnected { .. } => {},
                RawInputEvent::GamepadButton { gamepad, button, value } => {
                    let d = Device::Gamepad(gamepad);
                    let b = Binding::GamepadButton(button);
                    let z = dz_get(&self.cfg.dead_zones, d, b);
                    proof {
                        crate::tables::lemma_dz_spec_bounded(self.cfg.dead_zones@, d, b);
                    }
                    let v = use_dead_zone(value, z.as_ref());
                    assert(v == dz_value(dzs, d, b, value));
                    out.push(BindingInputEvent { binding: b, device: d, immediate: false, value: v });
                },
                RawInputEvent::GamepadAxis { gamepad, axis, value } => {
                    let d = Device::Gamepad(gamepad);
                    let b = Binding::GamepadAxis(axis);
                    let z = dz_get(&self.cfg.dead_zones, d, b);
                    proof {
                        crate::tables::lemma_dz_spec_bounded(self.cfg.dead_zones@, d, b);
                    }
                    let v = use_dead_zone(value, z.as_ref());
                    assert(v == dz_value(dzs, d, b, value));
                    let last = axis_get(&self.norm.axis_lasts, d, axis);
                    out.push(BindingInputEvent { binding: b, device: d, immediate: false, value: v });
                    if v > 0 || (last > 0 && v <= 0) {
                        let pv: i64 = if v > 0 { v } else { 0 };
                        out.push(BindingInputEvent {
                            binding: Binding::GamepadAxisPos(axis),
                            device: d,
                            immediate: false,
                            value: pv,
                        });
                    }
                    if v < 0 || (last < 0 && v >= 0) {
                        let nv: i64 = if v < 0 { -v } else { 0 };
                        out.push(BindingInputEvent {
                            binding: Binding::GamepadAxisNeg(axis),
                            device: d,
                            immediate: false,
                            value: nv,
                        });
                    }
                    axis_set(&mut self.norm.axis_lasts, d, axis, v);
                },
                RawInputEvent::KeyPressed { key } => {
                    if !key_held(&self.norm.key_lasts, key) {
                        out.push(BindingInputEvent {
                            binding: Binding::Key(key),
                            device: Device::Other,
                            immediate: false,
                            value: UNIT,
                        });
                        key_insert(&mut self.norm.key_lasts, key);
                    }
                },
                RawInputEvent::KeyReleased { key } => {
                    out.push(BindingInputEvent {
                        binding: Binding::Key(key),
                        device: Device::Other,
                        immediate: false,
                        value: 0,
                    });
                    key_remove(&mut self.norm.key_lasts, key);
                },
                RawInputEvent::MouseButtonPressed { button } => {
                    if !key_held(&self.norm.button_lasts, button) {
                        out.push(BindingInputEvent {
                            binding: Binding::MouseButton(button),
                            device: Device::Other,
                            immediate: false,
                            value: UNIT,
                        });
                        key_insert(&mut self.norm.button_lasts, button);
                    }
                },
                RawInputEvent::MouseButtonReleased { button } => {
                    out.push(BindingInputEvent {
                        binding: Binding::MouseButton(button),
                        device: Device::Other,
                        immediate: false,
                        value: 0,
                    });
                    key_remove(&mut self.norm.button_lasts, button);
                },
                RawInputEvent::MouseMove { x, y } => {
                    emit_fan3(
                        &mut out,
                        Device::Other,
                        Binding::MouseMoveX,
                        Binding::MouseMovePosX,
                        Binding::MouseMoveNegX,
                        x,
                    );
                    emit_fan3(
                        &mut out,
                        Device::Other,
                        Binding::MouseMoveY,
                        Binding::MouseMovePosY,
                        Binding::MouseMoveNegY,
                        y,
                    );
                },
                RawInputEvent::MouseScroll { unit, x, y } => match unit {
                    ScrollUnit::Line => {
                        emit_fan3(
                            &mut out,
                            Device::Other,
                            Binding::MouseScrollLineX,
                            Binding::MouseScrollLinePosX,
                            Binding::MouseScrollLineNegX,
                            x,
                        );
                        emit_fan3(
                            &mut out,
                            Device::Other,
                            Binding::MouseScrollLineY,
                            Binding::MouseScrollLinePosY,
                            Binding::MouseScrollLineNegY,
                            y,
                        );
                    },
                    ScrollUnit::Pixel => {
                        emit_fan3(
                            &mut out,
                            Device::Other,
                            Binding::MouseScrollPixelX,
                            Binding::MouseScrollPixelPosX,
                            Binding::MouseScrollPixelNegX,
                            x,
                        );
                        emit_fan3(
                            &mut out,
                            Device::Other,
                            Binding::MouseScrollPixelY,
                            Binding::MouseScrollPixelPosY,
                            Binding::MouseScrollPixelNegY,
                            y,
                        );
                    },
                },
            }
            proof {
                assert(out@ =~= out0 + norm_events(dzs, axes0, keys0, buttons0, raw@[i as int]));
                assert(self.norm.axis_lasts@ == norm_axes_after(dzs, axes0, raw@[i as int]));
                assert(self.norm.key_lasts@ == norm_keys_after(keys0, raw@[i as int]));
                assert(self.norm.button_lasts@ == norm_buttons_after(buttons0, raw@[i as int]));
                assert(full.3 =~= out@ + norm_run(
                    dzs,
                    self.norm.axis_lasts@,
                    self.norm.key_lasts@,
                    self.norm.button_lasts@,
                    raw@.skip(i + 1),
                ).3);
            }
            i = i + 1;
        }
        assert(raw@.skip(raw@.len() as int) =~= Seq::<RawInputEvent>::empty());
        assert(full.3 =~= out@);
        out
    }
}

} // verus!

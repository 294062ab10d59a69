//! The engine's input and output event types.

use vstd::prelude::*;

use crate::values::Binding;
use crate::values::Device;

verus! {

/// The unit a mouse-scroll signal is reported in.
#[derive(Clone, Copy, Debug, Hash, PartialEq, Eq, Structural)]
pub enum ScrollUnit {
    Line,
    Pixel,
}

/// One raw device signal, as the host delivers it for the current tick.
#[derive(Clone, Copy, Debug, PartialEq, Eq, Structural)]
pub enum RawInputEvent {
    GamepadConnected { gamepad: u64 },
    GamepadDisconnected { gamepad: u64 },
    /// A gamepad button's pressure, `0` to `UNIT`.
    GamepadButton { gamepad: u64, button: u32, value: i64 },
    /// A gamepad axis deflection, `-UNIT` to `UNIT`.
    GamepadAxis { gamepad: u64, axis: u32, value: i64 },
    KeyPressed { key: u32 },
    KeyReleased { key: u32 },
    MouseButtonPressed { button: u32 },
    MouseButtonReleased { button: u32 },
    /// A mouse motion delta for the tick.
    MouseMove { x: i64, y: i64 },
    /// A mouse scroll delta for the tick.
    MouseScroll { unit: ScrollUnit, x: i64, y: i64 },
}

/// One canonical binding event, as the normalizer emits it: the device and
/// binding it belongs to, the shaped value, and whether it is a single-tick
/// impulse (mouse motion or scroll) rather than a held state.
#[derive(Clone, Copy, Debug, PartialEq, Eq, Structural)]
pub struct BindingInputEvent {
    pub binding: Binding,
    pub device: Device,
    pub immediate: bool,
    pub value: i64,
}

/// One event the resolver emits toward the application.
///
/// `dir` is the sign of the mapping's aggregate value: `1`, `-1`, or `0`.
/// `val` carries the aggregate in fixed-point thousandths.
#[derive(Clone, Debug, PartialEq)]
pub enum InputMapEvent {
    /// The mapping's auto-repeat timer fired; `delay` is the interval that
    /// was in effect.
    Repeat { mapping: u32, dir: i32, delay: i64, owner: i32 },
    /// The mapping's direction left zero or flipped sign.
    JustPressed { mapping: u32, dir: i32, owner: i32 },
    /// The mapping's direction reached zero or flipped sign; `dir` is the
    /// direction being released.
    JustReleased { mapping: u32, dir: i32, owner: i32 },
    /// The mapping's aggregate value changed.
    ValueChanged { mapping: u32, val: i128, owner: i32 },
    /// A single-tick impulse value for the mapping (mouse motion or scroll).
    TempValueChanged { mapping: u32, val: i128, owner: i32 },
    /// In capture mode: the chord held on `device` grew to `bindings`.
    BindPressed { device: Device, bindings: Vec<Binding> },
    /// In capture mode: the chord `bindings` on `device` was released whole.
    BindReleased { device: Device, bindings: Vec<Binding> },
}

/// The resolver's unrecoverable failure: an internal-consistency violation
/// that stops the current tick.
#[derive(Clone, Copy, Debug, PartialEq, Eq, Structural)]
pub enum InputMapError {
    /// More than one distinct chord sharing this primary binding was already
    /// active on one device: the engine cannot tell which chord to continue.
    MultipleActiveChords { device: Device, binding: Binding },
}

} // verus!

//! Core value types: devices, bindings, binding chords and dead zones.
//!
//! Signal values are fixed-point integers: `UNIT` (1000) stands for the
//! analog value 1.0.  Key codes, button codes and axis codes are plain
//! integers; how they map onto a host's key and button identifiers is the
//! embedding application's business.

use vstd::prelude::*;

verus! {

/// Fixed-point scale: this many integer steps stand for the analog value 1.0.
pub const UNIT: i64 = 1000;

/// Largest magnitude accepted for a raw device signal value, a dead-zone
/// threshold or a configured scale (one million times full deflection).
pub const RAW_MAX: i64 = 1_000_000_000;

/// Largest magnitude a normalized binding event value can reach: a raw value
/// of magnitude at most `RAW_MAX` scaled by a dead-zone ramp grows by a factor
/// of at most `UNIT`.
pub const VAL_MAX: i64 = 1_000_000_000_000;

/// Largest magnitude accepted for a configured mapping scale.
pub const SCALE_MAX: i64 = 1_000_000_000;

/// Largest magnitude a stored contribution can reach: a binding value of
/// magnitude at most `VAL_MAX` scaled by at most `SCALE_MAX` over `UNIT`.
pub const CONTRIB_MAX: i64 = 1_000_000_000_000_000_000;

/// Largest value a repeat-timer accumulator can reach before it is reset: a
/// full repeat duration (at most `RAW_MAX * UNIT`) plus one tick delta.
pub const ACCUM_MAX: i64 = 2_000_000_000_000;

/// A source of input signals: the shared keyboard-and-mouse channel, or one
/// gamepad instance identified by a handle.
#[derive(Clone, Copy, Debug, Hash, PartialEq, Eq, Structural)]
pub enum Device {
    /// The aggregate keyboard-and-mouse channel; it is ownerless and may
    /// serve several owners at once.
    Other,
    /// One gamepad, named by the handle under which the host reported it.
    Gamepad(u64),
}

/// A device-agnostic identifier for one physical control signal.
///
/// Axis-like controls come in a raw signed form plus derived positive-only
/// and negative-only forms, so the two directions can be bound separately.
#[derive(Clone, Copy, Debug, Hash, PartialEq, Eq, Structural, Default)]
pub enum Binding {
    /// The absent binding.
    #[default]
    Unbound,

    MouseMoveX,
    MouseMoveY,

    MouseMovePosX,
    MouseMovePosY,
    MouseMoveNegX,
    MouseMoveNegY,

    MouseScrollPixelX,
    MouseScrollPixelY,

    MouseScrollPixelPosX,
    MouseScrollPixelPosY,
    MouseScrollPixelNegX,
    MouseScrollPixelNegY,

    MouseScrollLineX,
    MouseScrollLineY,

    MouseScrollLinePosX,
    MouseScrollLinePosY,

    MouseScrollLineNegX,
    MouseScrollLineNegY,

    /// The positive half of a gamepad axis, by axis code.
    GamepadAxisPos(u32),
    /// The negative half of a gamepad axis, by axis code.
    GamepadAxisNeg(u32),

    /// A raw signed gamepad axis, by axis code.
    GamepadAxis(u32),
    /// A mouse button, by button code.
    MouseButton(u32),
    /// A keyboard key, by key code.
    Key(u32),
    /// A gamepad button, by button code.
    GamepadButton(u32),
}

impl Binding {
    /// Whether this binding's signals arrive from a gamepad device.
    pub fn is_gamepad_device(&self) -> (r: bool)
        ensures
            r == self.is_gamepad_binding(),
    {
        if let Self::GamepadAxisPos(_) | Self::GamepadAxisNeg(_) | Self::GamepadAxis(_)
            | Self::GamepadButton(_) = self {
            true
        } else {
            false
        }
    }

    /// Whether this binding's signals arrive from the keyboard-and-mouse
    /// channel.
    pub fn is_other_device(&self) -> (r: bool)
        ensures
            r == self.is_other_binding(),
    {
        if let Self::MouseMoveX | Self::MouseMoveY
            | Self::MouseMovePosX | Self::MouseMovePosY
            | Self::MouseMoveNegX | Self::MouseMoveNegY
            | Self::MouseScrollPixelX | Self::MouseScrollPixelY
            | Self::MouseScrollPixelPosX | Self::MouseScrollPixelPosY
            | Self::MouseScrollPixelNegX | Self::MouseScrollPixelNegY
            | Self::MouseScrollLineX | Self::MouseScrollLineY
            | Self::MouseScrollLinePosX | Self::MouseScrollLinePosY
            | Self::MouseScrollLineNegX | Self::MouseScrollLineNegY
            | Self::MouseButton(_)
            | Self::Key(_)
            = self {
            true
        } else {
            false
        }
    }

    /// `is_gamepad_device`, as a spec-level predicate.
    pub open spec fn is_gamepad_binding(self) -> bool {
        self is GamepadAxisPos || self is GamepadAxisNeg || self is GamepadAxis
            || self is GamepadButton
    }

    /// `is_other_device`, as a spec-level predicate.
    pub open spec fn is_other_binding(self) -> bool {
        !(self is GamepadAxisPos || self is GamepadAxisNeg || self is GamepadAxis
            || self is GamepadButton || self is Unbound)
    }
}

/// Dead-zone thresholds for one control: signals between `neg_min` and
/// `pos_min` collapse to zero, and the bands up to `pos_max` and down to
/// `neg_max` are rescaled toward full deflection.
#[derive(Clone, Copy, Debug, PartialEq, Eq, Structural)]
pub struct DeadZone {
    pub pos_min: i64,
    pub pos_max: i64,
    pub neg_min: i64,
    pub neg_max: i64,
}

impl Default for DeadZone {
    /// The identity dead zone: no dead band, full range on both sides.
    fn default() -> (r: Self)
        ensures
            r.pos_min == 0 && r.pos_max == UNIT && r.neg_min == 0 && r.neg_max == -UNIT,
    {
        Self { pos_min: 0, pos_max: UNIT, neg_min: 0, neg_max: -UNIT }
    }
}

impl DeadZone {
    /// All four thresholds are within the accepted raw-signal range.
    pub open spec fn bounded(self) -> bool {
        -RAW_MAX <= self.pos_min <= RAW_MAX
            && -RAW_MAX <= self.pos_max <= RAW_MAX
            && -RAW_MAX <= self.neg_min <= RAW_MAX
            && -RAW_MAX <= self.neg_max <= RAW_MAX
    }
}

/// An ordered binding chord: the modifiers must all be held for the primary
/// binding to drive its mapping.
#[derive(Debug)]
pub struct BindingGroup {
    /// The chord's modifier bindings, in configuration order.
    pub modifiers: Vec<Binding>,
    /// The chord's primary binding: the one whose value the mapping takes.
    pub primary: Binding,
}

/// The mathematical value of a `BindingGroup`.
pub struct BindingGroupView {
    pub modifiers: Seq<Binding>,
    pub primary: Binding,
}

impl View for BindingGroup {
    type V = BindingGroupView;

    open spec fn view(&self) -> BindingGroupView {
        BindingGroupView { modifiers: self.modifiers@, primary: self.primary }
    }
}

impl Clone for BindingGroup {
    /// Cloning keeps the chord's value.
    fn clone(&self) -> (r: Self)
        ensures
            r@ == self@,
    {
        let mut mods: Vec<Binding> = Vec::new();
        let mut i: usize = 0;
        while i < self.modifiers.len()
            invariant
                i <= self.modifiers.len(),
                mods@ == self.modifiers@.subrange(0, i as int),
            decreases self.modifiers.len() - i,
        {
            mods.push(self.modifiers[i]);
            assert(mods@ =~= self.modifiers@.subrange(0, i + 1 as int));
            i = i + 1;
        }
        assert(mods@ =~= self.modifiers@);
        BindingGroup { modifiers: mods, primary: self.primary }
    }
}

impl BindingGroup {
    /// Whether two chords have the same modifiers in the same order and the
    /// same primary binding.
    pub fn group_eq(&self, other: &Self) -> (r: bool)
        ensures
            r == (self@ == other@),
    {
        if !(self.primary == other.primary) {
            assert(self@ != other@);
            return false;
        }
        if self.modifiers.len() != other.modifiers.len() {
            assert(self@.modifiers.len() != other@.modifiers.len());
            return false;
        }
        let mut i: usize = 0;
        while i < self.modifiers.len()
            invariant
                i <= self.modifiers.len(),
                self.modifiers.len() == other.modifiers.len(),
                self.primary == other.primary,
                forall|j: int| 0 <= j < i ==> self.modifiers@[j] == other.modifiers@[j],
            decreases self.modifiers.len() - i,
        {
            if !(self.modifiers[i] == other.modifiers[i]) {
                assert(self@.modifiers[i as int] != other@.modifiers[i as int]);
                return false;
            }
            i = i + 1;
        }
        assert(self@.modifiers =~= other@.modifiers);
        true
    }
}

impl Binding {
    /// The name of this binding's outer form, without any inner code.
    pub open spec fn outer_name(self) -> Seq<char> {
        match self {
            Self::Key(_) => "Key"@,
            Self::GamepadAxis(_) => "GamepadAxis"@,
            Self::GamepadButton(_) => "GamepadButton"@,
            Self::MouseButton(_) => "MouseButton"@,
            Self::MouseMoveX => "MouseMoveX"@,
            Self::MouseMoveY => "MouseMoveY"@,
            Self::MouseScrollPixelX => "MouseScrollX"@,
            Self::MouseScrollPixelY => "MouseScrollY"@,
            Self::MouseScrollLineX => "MouseScrollLineX"@,
            Self::MouseScrollLineY => "MouseScrollLineY"@,
            Self::MouseMovePosX => "MouseMovePosX"@,
            Self::MouseMovePosY => "MouseMovePosY"@,
            Self::MouseMoveNegX => "MouseMoveNegX"@,
            Self::MouseMoveNegY => "MouseMoveNegY"@,
            Self::MouseScrollPixelPosX => "MouseScrollPosX"@,
            Self::MouseScrollPixelPosY => "MouseScrollPosY"@,
            Self::MouseScrollPixelNegX => "MouseScrollNegX"@,
            Self::MouseScrollPixelNegY => "MouseScrollNegY"@,
            Self::MouseScrollLinePosX => "MouseScrollLinePosX"@,
            Self::MouseScrollLinePosY => "MouseScrollLinePosY"@,
            Self::MouseScrollLineNegX => "MouseScrollLineNegX"@,
            Self::MouseScrollLineNegY => "MouseScrollLineNegY"@,
            Self::GamepadAxisPos(_) => "GamepadAxisPos"@,
            Self::GamepadAxisNeg(_) => "GamepadAxisNeg"@,
            Self::Unbound => "Unbound"@,
        }
    }

    /// The name of this binding's outer form: which control family it
    /// belongs to, without the inner key, button or axis code.
    pub fn get_outer_string(&self) -> (r: &'static str)
        ensures
            r@ == self.outer_name(),
    {
        match self {
            Self::Key(_) => "Key",
            Self::GamepadAxis(_) => "GamepadAxis",
            Self::GamepadButton(_) => "GamepadButton",
            Self::MouseButton(_) => "MouseButton",
            Self::MouseMoveX => "MouseMoveX",
            Self::MouseMoveY => "MouseMoveY",
            Self::MouseScrollPixelX => "MouseScrollX",
            Self::MouseScrollPixelY => "MouseScrollY",
            Self::MouseScrollLineX => "MouseScrollLineX",
            Self::MouseScrollLineY => "MouseScrollLineY",
            Self::MouseMovePosX => "MouseMovePosX",
            Self::MouseMovePosY => "MouseMovePosY",
            Self::MouseMoveNegX => "MouseMoveNegX",
            Self::MouseMoveNegY => "MouseMoveNegY",
            Self::MouseScrollPixelPosX => "MouseScrollPosX",
            Self::MouseScrollPixelPosY => "MouseScrollPosY",
            Self::MouseScrollPixelNegX => "MouseScrollNegX",
            Self::MouseScrollPixelNegY => "MouseScrollNegY",
            Self::MouseScrollLinePosX => "MouseScrollLinePosX",
            Self::MouseScrollLinePosY => "MouseScrollLinePosY",
            Self::MouseScrollLineNegX => "MouseScrollLineNegX",
            Self::MouseScrollLineNegY => "MouseScrollLineNegY",
            Self::GamepadAxisPos(_) => "GamepadAxisPos",
            Self::GamepadAxisNeg(_) => "GamepadAxisNeg",
            Self::Unbound => "Unbound",
        }
    }
}

} // verus!

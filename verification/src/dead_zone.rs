//! Dead-zone shaping of raw signal values.
//!
//! A raw signal is collapsed to zero inside the dead band between the
//! effective negative and positive minima, and rescaled linearly across the
//! band between minimum and maximum: zero at the band's inner edge, exactly
//! full deflection (`UNIT`) at its outer edge.  The four configured
//! thresholds are first normalized so that
//! `neg_max <= neg_min <= pos_min <= pos_max` effectively holds.

use vstd::prelude::*;

use crate::values::DeadZone;
use crate::values::RAW_MAX;
use crate::values::UNIT;
use crate::values::VAL_MAX;

verus! {

/// The larger of two integers.
pub open spec fn max2(a: int, b: int) -> int {
    if a >= b { a } else { b }
}

/// The smaller of two integers.
pub open spec fn min2(a: int, b: int) -> int {
    if a <= b { a } else { b }
}

/// `v` forced into the interval `[lo, hi]` (callers keep `lo <= hi`).
pub open spec fn clamp_spec(v: int, lo: int, hi: int) -> int {
    if v < lo { lo } else if v > hi { hi } else { v }
}

/// The effective positive dead-band edge after threshold normalization.
pub open spec fn eff_pos_min(z: DeadZone) -> int {
    max2(z.pos_min as int, z.neg_min as int)
}

/// The effective negative dead-band edge after threshold normalization.
pub open spec fn eff_neg_min(z: DeadZone) -> int {
    min2(z.neg_min as int, z.pos_min as int)
}

/// The effective positive full-deflection edge after threshold normalization.
pub open spec fn eff_pos_max(z: DeadZone) -> int {
    max2(z.pos_max as int, eff_pos_min(z))
}

/// The effective negative full-deflection edge after threshold normalization.
pub open spec fn eff_neg_max(z: DeadZone) -> int {
    min2(z.neg_max as int, eff_neg_min(z))
}

/// A distance of `dist` into a band of length `len`, rescaled to
/// `0..=UNIT` (rounding down; `0 <= dist <= len`, `len > 0`).
pub open spec fn ramp(dist: int, len: int) -> int {
    dist * UNIT / len
}

/// What the dead-zone function returns: zero inside the dead band, and on
/// either side a linear ramp over the distance into the band — zero at the
/// band's inner edge, exactly `UNIT` (with the side's sign) at its outer
/// edge, clamped beyond it.  A side whose band is empty yields zero.
pub open spec fn dead_zone_spec(v: int, z: DeadZone) -> int {
    let pm = eff_pos_min(z);
    let nm = eff_neg_min(z);
    let px = eff_pos_max(z);
    let nx = eff_neg_max(z);
    if v > pm {
        let len = px - pm;
        if len > 0 { ramp(clamp_spec(v, pm, px) - pm, len) } else { 0 }
    } else if v < nm {
        let len = nm - nx;
        if len > 0 { -ramp(nm - clamp_spec(v, nx, nm), len) } else { 0 }
    } else {
        0
    }
}

/// `dist * UNIT / len`, matching `ramp`, with the result pinned inside
/// `0..=UNIT`.
fn ramp_exec(dist: i64, len: i64) -> (r: i64)
    requires
        0 <= dist <= len,
        0 < len <= 2 * RAW_MAX,
    ensures
        r == ramp(dist as int, len as int),
        0 <= r <= UNIT,
{
    let p: i64 = dist * UNIT;
    assert(0 <= p <= 2 * RAW_MAX * UNIT) by (nonlinear_arith)
        requires 0 <= dist <= 2 * RAW_MAX && p == dist * UNIT && UNIT > 0
    ;
    let q: i64 = p / len;
    assert(q == p as int / len as int && 0 <= q <= UNIT) by (nonlinear_arith)
        requires 0 <= dist <= len && 0 < len && p == dist * UNIT && q == p / len && UNIT > 0
    ;
    q
}

/// Applies a dead zone, if one is configured, to a raw signal value.
///
/// With a dead zone the result is always within `[-UNIT, UNIT]`; with none
/// the value passes through unchanged.
pub fn use_dead_zone(value: i64, dead_zone: Option<&DeadZone>) -> (r: i64)
    requires
        -RAW_MAX <= value <= RAW_MAX,
        dead_zone is Some ==> dead_zone->0.bounded(),
    ensures
        r == match dead_zone {
            Some(z) => dead_zone_spec(value as int, *z),
            None => value as int,
        },
        dead_zone is Some ==> -UNIT <= r <= UNIT,
        -VAL_MAX <= r <= VAL_MAX,
{
    let Some(z) = dead_zone else {
        return value;
    };

    let pos_min: i64 = if z.pos_min >= z.neg_min { z.pos_min } else { z.neg_min };
    let neg_min: i64 = if z.neg_min <= z.pos_min { z.neg_min } else { z.pos_min };
    let pos_max: i64 = if z.pos_max >= pos_min { z.pos_max } else { pos_min };
    let neg_max: i64 = if z.neg_max <= neg_min { z.neg_max } else { neg_min };

    if value > pos_min {
        let len = pos_max - pos_min;
        if len > 0 {
            let c: i64 = if value > pos_max { pos_max } else { value };
            return ramp_exec(c - pos_min, len);
        }
    } else if value < neg_min {
        let len = neg_min - neg_max;
        if len > 0 {
            let c: i64 = if value < neg_max { neg_max } else { value };
            return -ramp_exec(neg_min - c, len);
        }
    }

    0
}

/// Inside the dead band the dead-zone function returns exactly zero: values
/// at or below the effective positive minimum and at or above the effective
/// negative minimum are suppressed.
pub proof fn lemma_dead_zone_zero_inside(v: int, z: DeadZone)
    requires
        eff_neg_min(z) <= v <= eff_pos_min(z),
    ensures
        dead_zone_spec(v, z) == 0,
{
}

/// The dead-zone function never leaves `[-UNIT, UNIT]`: on each side the
/// ramp divides the distance into the band, at most the band's length, by
/// that length.  This holds for every zone and every value.
pub proof fn lemma_dead_zone_unit_range(v: int, z: DeadZone)
    ensures
        -UNIT <= dead_zone_spec(v, z) <= UNIT,
{
    let pm = eff_pos_min(z);
    let nm = eff_neg_min(z);
    let px = eff_pos_max(z);
    let nx = eff_neg_max(z);
    if v > pm {
        let len = px - pm;
        if len > 0 {
            let d = clamp_spec(v, pm, px) - pm;
            assert(0 <= d <= len);
            assert(0 <= d * UNIT / len <= UNIT) by (nonlinear_arith)
                requires 0 <= d <= len && 0 < len && UNIT > 0
            ;
        }
    } else if v < nm {
        let len = nm - nx;
        if len > 0 {
            let d = nm - clamp_spec(v, nx, nm);
            assert(0 <= d <= len);
            assert(0 <= d * UNIT / len <= UNIT) by (nonlinear_arith)
                requires 0 <= d <= len && 0 < len && UNIT > 0
            ;
        }
    }
}

/// At or beyond the band's outer edge the ramp reaches exactly full
/// deflection: `UNIT` from the positive maximum on, `-UNIT` from the
/// negative maximum on (wherever the side's band is non-empty).
pub proof fn lemma_dead_zone_full_deflection(v: int, z: DeadZone)
    ensures
        v >= eff_pos_max(z) && eff_pos_max(z) > eff_pos_min(z) ==> dead_zone_spec(v, z) == UNIT,
        v <= eff_neg_max(z) && eff_neg_max(z) < eff_neg_min(z) ==> dead_zone_spec(v, z) == -UNIT,
{
    let pm = eff_pos_min(z);
    let nm = eff_neg_min(z);
    let px = eff_pos_max(z);
    let nx = eff_neg_max(z);
    if v >= px && px > pm {
        let len = px - pm;
        assert(clamp_spec(v, pm, px) == px);
        assert(len * UNIT / len == UNIT) by (nonlinear_arith)
            requires 0 < len && UNIT > 0
        ;
    }
    if v <= nx && nx < nm {
        let len = nm - nx;
        assert(clamp_spec(v, nx, nm) == nx);
        assert(len * UNIT / len == UNIT) by (nonlinear_arith)
            requires 0 < len && UNIT > 0
        ;
    }
}

} // verus!

//! Computations of the industrial-I/O ambient-light source.
//!
//! Reading the sensor files is device I/O and lives outside the library;
//! what is computed from the raw readings is here.  Fractional scales and
//! offsets are carried in micro-units (a scale of one is `MICRO`).

use vstd::prelude::*;

verus! {

/// One micro-unit per whole unit.
pub const MICRO: u64 = 1_000_000;

/// Largest accepted scale/offset magnitude, in micro-units.
pub const MAX_MICRO: u64 = 1_000_000_000_000;

/// The scale factor the sensor's scale file yields, in micro-units: a
/// missing or unreadable file, or a negative reading, means a scale of one;
/// a reading beyond the accepted range is held at the bound.
pub open spec fn spec_scale_micro(reading: Option<i64>) -> u64 {
    match reading {
        Option::Some(v) => if v < 0 {
            MICRO
        } else if v > MAX_MICRO as i64 {
            MAX_MICRO
        } else {
            v as u64
        },
        Option::None => MICRO,
    }
}

/// The offset the sensor's offset file yields, in micro-units: a missing or
/// unreadable file means no offset; a reading beyond the accepted range is
/// held at the bound.
pub open spec fn spec_offset_micro(reading: Option<i64>) -> i64 {
    match reading {
        Option::Some(v) => if v < -(MAX_MICRO as int) {
            (-(MAX_MICRO as int)) as i64
        } else if v > MAX_MICRO as i64 {
            MAX_MICRO as i64
        } else {
            v
        },
        Option::None => 0,
    }
}

/// Default and bound the scale read from a sensor's scale file, so that it
/// is accepted by `illuminance_from_raw`.
pub fn scale_from_reading(reading: Option<i64>) -> (s: u64)
    ensures
        s == spec_scale_micro(reading),
        s <= MAX_MICRO,
{
    match reading {
        Option::Some(v) => {
            if v < 0 {
                MICRO
            } else if v > MAX_MICRO as i64 {
                MAX_MICRO
            } else {
                v as u64
            }
        },
        Option::None => MICRO,
    }
}

/// Default and bound the offset read from a sensor's offset file, so that
/// it is accepted by `illuminance_from_raw`.
pub fn offset_from_reading(reading: Option<i64>) -> (o: i64)
    ensures
        o == spec_offset_micro(reading),
        -(MAX_MICRO as int) <= o <= MAX_MICRO as int,
{
    match reading {
        Option::Some(v) => {
            if v < -(MAX_MICRO as i64) {
                -(MAX_MICRO as i64)
            } else if v > MAX_MICRO as i64 {
                MAX_MICRO as i64
            } else {
                v
            }
        },
        Option::None => 0,
    }
}

/// The illuminance reading `(value + offset) * scale`, over micro-unit
/// fixed-point values, clamped at zero and saturating at `u64::MAX`.
pub open spec fn spec_illuminance(raw: u64, scale_micro: u64, offset_micro: i64) -> int {
    let v = raw * MICRO + offset_micro;
    if v <= 0 {
        0
    } else {
        let lux = v * scale_micro / (MICRO * MICRO);
        if lux > u64::MAX {
            u64::MAX as int
        } else {
            lux
        }
    }
}

/// The lightness a red/green/blue intensity triple is perceived with,
/// `-0.32466 R + 1.57837 G - 0.73191 B`, carried over hundred-thousandths,
/// clamped at zero and saturating at `u64::MAX`.
pub open spec fn spec_intensity(r: u64, g: u64, b: u64) -> int {
    let num = -32466 * r + 157837 * g + -73191 * b;
    if num <= 0 {
        0
    } else {
        let lux = num / 100000;
        if lux > u64::MAX {
            u64::MAX as int
        } else {
            lux
        }
    }
}

/// Lux from a raw illuminance reading and the sensor's scale and offset
/// (defaults: scale `MICRO`, offset 0, for sensors without those files).
pub fn illuminance_from_raw(raw: u64, scale_micro: u64, offset_micro: i64) -> (lux: u64)
    requires
        scale_micro <= MAX_MICRO,
        -(MAX_MICRO as int) <= offset_micro <= MAX_MICRO as int,
    ensures
        lux as int == spec_illuminance(raw, scale_micro, offset_micro),
{
    let v: i128 = (raw as i128) * (MICRO as i128) + (offset_micro as i128);
    proof {
        vstd::arithmetic::mul::lemma_mul_upper_bound(raw as int, u64::MAX as int, MICRO as int,
            MICRO as int);
        vstd::arithmetic::mul::lemma_mul_nonnegative(raw as int, MICRO as int);
    }
    if v <= 0 {
        return 0;
    }
    proof {
        vstd::arithmetic::mul::lemma_mul_upper_bound(v as int, (0xFFFF_FFFF_FFFF_FFFF as int)
            * 1_000_000 + 1_000_000_000_000, scale_micro as int, MAX_MICRO as int);
        vstd::arithmetic::mul::lemma_mul_nonnegative(v as int, scale_micro as int);
        vstd::arithmetic::div_mod::lemma_div_pos_is_pos((v as int) * (scale_micro as int), (MICRO
            * MICRO) as int);
    }
    let lux: i128 = (v * (scale_micro as i128)) / ((MICRO as i128) * (MICRO as i128));
    if lux > u64::MAX as i128 {
        u64::MAX
    } else {
        lux as u64
    }
}

/// Lux from the raw red/green/blue intensity channels of a sensor without
/// illuminance files.  The formula can go negative on some sensors; the
/// result is clamped at zero.
pub fn intensity_from_rgb(r: u64, g: u64, b: u64) -> (lux: u64)
    ensures
        lux as int == spec_intensity(r, g, b),
{
    proof {
        vstd::arithmetic::mul::lemma_mul_upper_bound(32466, 32466, r as int, u64::MAX as int);
        vstd::arithmetic::mul::lemma_mul_upper_bound(157837, 157837, g as int, u64::MAX as int);
        vstd::arithmetic::mul::lemma_mul_upper_bound(73191, 73191, b as int, u64::MAX as int);
        vstd::arithmetic::mul::lemma_mul_nonnegative(32466, r as int);
        vstd::arithmetic::mul::lemma_mul_nonnegative(157837, g as int);
        vstd::arithmetic::mul::lemma_mul_nonnegative(73191, b as int);
    }
    let num: i128 = 157837 * (g as i128) - 32466 * (r as i128) - 73191 * (b as i128);
    if num <= 0 {
        return 0;
    }
    proof {
        vstd::arithmetic::div_mod::lemma_div_pos_is_pos(num as int, 100000);
    }
    let lux: i128 = num / 100000;
    if lux > u64::MAX as i128 {
        u64::MAX
    } else {
        lux as u64
    }
}

} // verus!

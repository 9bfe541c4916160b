//! Server-side movement arithmetic, in millifixed integers.
//!
//! A raw movement intent arrives as IEEE 754 single-precision bit patterns
//! ([`crate::Vec3Bits`]).  [`normalize_direction`] sanitizes it exactly as the
//! design demands: a non-finite component (NaN or an infinity) or a vector
//! whose millifixed magnitude is zero means "stop", every other vector is
//! scaled to (approximately) unit length.  [`step_position`] then advances a
//! position by `direction * speed * elapsed` once per tick.
//!
//! The float decoding is plain integer logic: a finite bit pattern with
//! exponent field `e` and full significand `sig` denotes `sig * 2^(e - 150)`
//! world units (with `e` read as 1 for subnormals), which is turned into
//! thousandths of a unit by scaling with 1000, truncating, and capping the
//! magnitude at [`MAG_CAP`].

use vstd::prelude::*;
use vstd::arithmetic::power2::{pow2, lemma_pow2_strictly_increases, lemma2_to64};
use vstd::arithmetic::div_mod::{lemma_basic_div, lemma_div_is_ordered, lemma_div_multiples_vanish};
use vstd::bits::lemma_u64_shr_is_div;
use vstd::math::abs;
use crate::{Vec2Milli, Vec3Bits, Vec3Milli, zero_direction};

verus! {

/// Cap on the millifixed magnitude of one decoded intent component
/// (1000 world units).  Only the direction of an intent matters, so capping
/// huge finite components changes nothing observable.
pub const MAG_CAP: u64 = 1_000_000;

/// Millifixed length of a unit direction component.
pub const DIR_ONE: i64 = 1000;

/// Cap on a player's speed in thousandths of a unit per second.
pub const SPEED_CAP: i64 = 1_000_000_000;

/// Cap on the elapsed time of one simulation tick, in milliseconds.
pub const ELAPSED_CAP_MS: u64 = 1_000_000;

// ---------------------------------------------------------------------------
// Decoding one IEEE 754 single-precision bit pattern
// ---------------------------------------------------------------------------

pub open spec fn f32_sign(bits: u32) -> bool {
    bits >> 31 == 1
}

pub open spec fn f32_exp(bits: u32) -> u32 {
    (bits >> 23) & 0xff
}

/// The full significand: the fraction field, with the implicit leading bit
/// for normal numbers.
pub open spec fn f32_sig(bits: u32) -> u64 {
    if f32_exp(bits) == 0 {
        (bits & 0x7fffff) as u64
    } else {
        ((bits & 0x7fffff) as u64 + 0x800000) as u64
    }
}

/// Binary scale of the significand: the magnitude is `sig * 2^(-shift)`
/// world units (only used when the exponent field is below 150).
pub open spec fn f32_shift(bits: u32) -> nat {
    if f32_exp(bits) == 0 {
        149
    } else {
        (150 - f32_exp(bits)) as nat
    }
}

/// Millifixed magnitude of a finite bit pattern: `floor(|value| * 1000)`,
/// capped at [`MAG_CAP`].  An exponent field of 150 or more denotes at least
/// `2^23` world units, far beyond the cap.
pub open spec fn spec_milli_mag(bits: u32) -> int {
    if f32_exp(bits) >= 150 {
        MAG_CAP as int
    } else {
        let m = (f32_sig(bits) * 1000) as int / pow2(f32_shift(bits)) as int;
        if m > MAG_CAP as int {
            MAG_CAP as int
        } else {
            m
        }
    }
}

/// Millifixed value of a bit pattern; `None` for NaN and the infinities.
pub open spec fn spec_milli_from_f32_bits(bits: u32) -> Option<i64> {
    if f32_exp(bits) == 255 {
        None
    } else if f32_sign(bits) {
        Some((0 - spec_milli_mag(bits)) as i64)
    } else {
        Some(spec_milli_mag(bits) as i64)
    }
}

pub proof fn lemma_milli_mag_bounds(bits: u32)
    ensures
        0 <= spec_milli_mag(bits) <= MAG_CAP as int,
{
    if f32_exp(bits) < 150 {
        vstd::arithmetic::power2::lemma_pow2_pos(f32_shift(bits));
    }
}

/// Decode one raw component.  `None` exactly for NaN and the infinities;
/// every finite pattern yields a millifixed value within the cap.
pub fn milli_from_f32_bits(bits: u32) -> (r: Option<i64>)
    ensures
        r == spec_milli_from_f32_bits(bits),
        match r {
            Some(v) => -(MAG_CAP as i64) <= v <= MAG_CAP as i64,
            None => f32_exp(bits) == 255,
        },
{
    proof {
        lemma_milli_mag_bounds(bits);
    }
    let exp: u32 = (bits >> 23) & 0xff;
    if exp == 255 {
        return None;
    }
    let mag: u64 = if exp >= 150 {
        MAG_CAP
    } else {
        let frac: u32 = bits & 0x7fffff;
        proof {
            assert(bits & 0x7fffff <= 0x7fffff) by (bit_vector);
        }
        let sig: u64 = if exp == 0 {
            frac as u64
        } else {
            frac as u64 + 0x800000
        };
        let shift: u32 = if exp == 0 {
            149
        } else {
            150 - exp
        };
        let scaled: u64 = sig * 1000;
        let m: u64 = if shift >= 64 {
            proof {
                lemma2_to64();
                if (f32_shift(bits)) > 64 {
                    lemma_pow2_strictly_increases(64, f32_shift(bits));
                }
                assert(scaled < pow2(64));
                assert(scaled < pow2(f32_shift(bits)));
                lemma_basic_div(scaled as int, pow2(f32_shift(bits)) as int);
            }
            0
        } else {
            proof {
                lemma_u64_shr_is_div(scaled, shift as u64);
            }
            scaled >> (shift as u64)
        };
        if m > MAG_CAP {
            MAG_CAP
        } else {
            m
        }
    };
    if (bits >> 31) == 1 {
        Some(-(mag as i64))
    } else {
        Some(mag as i64)
    }
}

// ---------------------------------------------------------------------------
// Integer square root
// ---------------------------------------------------------------------------

pub open spec fn is_isqrt(n: int, r: int) -> bool {
    0 <= r && r * r <= n && n < (r + 1) * (r + 1)
}

/// `floor(sqrt(n))`, as the unique integer square root.
pub open spec fn spec_isqrt(n: int) -> int {
    choose|r: int| is_isqrt(n, r)
}

pub proof fn lemma_isqrt_unique(n: int, r1: int, r2: int)
    by (nonlinear_arith)
    requires
        0 <= r1,
        r1 * r1 <= n,
        n < (r1 + 1) * (r1 + 1),
        0 <= r2,
        r2 * r2 <= n,
        n < (r2 + 1) * (r2 + 1),
    ensures
        r1 == r2,
{
}

/// Integer square root by bisection; the bound on `n` keeps every square
/// inside `u64`.
pub fn isqrt(n: u64) -> (r: u64)
    requires
        n <= 4_000_000_000_000,
    ensures
        r as int == spec_isqrt(n as int),
        is_isqrt(n as int, r as int),
        r <= 2_000_000,
{
    let mut lo: u64 = 0;
    let mut hi: u64 = 2_000_001;
    while lo + 1 < hi
        invariant
            lo < hi <= 2_000_001,
            lo as int * lo as int <= n as int,
            (n as int) < hi as int * hi as int,
        decreases hi - lo,
    {
        let mid = lo + (hi - lo) / 2;
        proof {
            assert(mid * mid <= 4_000_004_000_001) by (nonlinear_arith)
                requires
                    mid <= 2_000_001,
            ;
        }
        if mid * mid <= n {
            lo = mid;
        } else {
            hi = mid;
        }
    }
    proof {
        assert(is_isqrt(n as int, lo as int));
        let s = spec_isqrt(n as int);
        assert(exists|r: int| is_isqrt(n as int, r));
        assert(is_isqrt(n as int, s));
        lemma_isqrt_unique(n as int, s, lo as int);
    }
    lo
}

// ---------------------------------------------------------------------------
// Direction sanitization
// ---------------------------------------------------------------------------

/// One component of the unit vector: `|c| * 1000 / mag`, with the sign of
/// `c` restored.
pub open spec fn spec_scaled_component(c: i64, mag: int) -> i64
    recommends
        0 < mag,
        abs(c as int) <= mag,
{
    let m = (abs(c as int) as int * 1000) / mag;
    if c >= 0 {
        m as i64
    } else {
        (0 - m) as i64
    }
}

/// Sanitized direction of a decoded millifixed vector: zero if the vector is
/// zero, else the planar part of the unit vector along it.
pub open spec fn spec_normalize_milli(x: i64, y: i64, z: i64) -> Vec2Milli {
    let n2 = x as int * x as int + y as int * y as int + z as int * z as int;
    if n2 == 0 {
        zero_direction()
    } else {
        let mag = spec_isqrt(n2);
        Vec2Milli { x: spec_scaled_component(x, mag), y: spec_scaled_component(y, mag) }
    }
}

/// Sanitized direction of a raw intent: any NaN or infinite component, and
/// any vector of zero millifixed magnitude, means "stop".
pub open spec fn spec_normalize_direction(d: Vec3Bits) -> Vec2Milli {
    match (
        spec_milli_from_f32_bits(d.x),
        spec_milli_from_f32_bits(d.y),
        spec_milli_from_f32_bits(d.z),
    ) {
        (Some(x), Some(y), Some(z)) => spec_normalize_milli(x, y, z),
        _ => zero_direction(),
    }
}

fn abs_milli(v: i64) -> (r: u64)
    requires
        -(MAG_CAP as i64) <= v <= MAG_CAP as i64,
    ensures
        r as int == abs(v as int),
        r <= MAG_CAP,
{
    if v >= 0 {
        v as u64
    } else {
        (-v) as u64
    }
}

/// Sanitize one raw movement intent into a stored direction.
///
/// The result is the zero vector exactly when a component is non-finite or
/// the decoded vector is zero; otherwise each planar component is the
/// millifixed unit-vector component, so it lies in `-1000 ..= 1000`.
pub fn normalize_direction(d: Vec3Bits) -> (r: Vec2Milli)
    ensures
        r == spec_normalize_direction(d),
        -DIR_ONE <= r.x <= DIR_ONE,
        -DIR_ONE <= r.y <= DIR_ONE,
{
    let mx = milli_from_f32_bits(d.x);
    let my = milli_from_f32_bits(d.y);
    let mz = milli_from_f32_bits(d.z);
    let (x, y, z) = match (mx, my, mz) {
        (Some(x), Some(y), Some(z)) => (x, y, z),
        _ => {
            return Vec2Milli { x: 0, y: 0 };
        },
    };
    let xa = abs_milli(x);
    let ya = abs_milli(y);
    let za = abs_milli(z);
    proof {
        assert(xa as int * xa as int == x as int * x as int && xa as int * xa as int
            <= 1_000_000_000_000) by (nonlinear_arith)
            requires
                xa as int == abs(x as int),
                xa <= 1_000_000,
        ;
        assert(ya as int * ya as int == y as int * y as int && ya as int * ya as int
            <= 1_000_000_000_000) by (nonlinear_arith)
            requires
                ya as int == abs(y as int),
                ya <= 1_000_000,
        ;
        assert(za as int * za as int == z as int * z as int && za as int * za as int
            <= 1_000_000_000_000) by (nonlinear_arith)
            requires
                za as int == abs(z as int),
                za <= 1_000_000,
        ;
    }
    let n2: u64 = xa * xa + ya * ya + za * za;
    if n2 == 0 {
        return Vec2Milli { x: 0, y: 0 };
    }
    let mag = isqrt(n2);
    proof {
        assert(mag >= 1) by (nonlinear_arith)
            requires
                n2 >= 1,
                0 <= mag,
                (n2 as int) < (mag as int + 1) * (mag as int + 1),
        ;
    }
    let cx = scale_toward_unit(x, xa, n2, mag);
    let cy = scale_toward_unit(y, ya, n2, mag);
    Vec2Milli { x: cx, y: cy }
}

/// Scale one signed component `c` (of magnitude `ca`) of a vector whose
/// squared length is `n2` and whose length is `mag`.
fn scale_toward_unit(c: i64, ca: u64, n2: u64, mag: u64) -> (r: i64)
    requires
        ca as int == abs(c as int),
        ca <= MAG_CAP,
        mag >= 1,
        is_isqrt(n2 as int, mag as int),
        ca as int * ca as int <= n2 as int,
        mag as int == spec_isqrt(n2 as int),
    ensures
        r == spec_scaled_component(c, mag as int),
        -DIR_ONE <= r <= DIR_ONE,
{
    proof {
        assert(mag as int >= ca as int) by (nonlinear_arith)
            requires
                0 <= ca,
                0 <= mag,
                ca as int * ca as int <= n2 as int,
                (n2 as int) < (mag as int + 1) * (mag as int + 1),
        ;
        lemma_div_is_ordered(ca as int * 1000, mag as int * 1000, mag as int);
        lemma_div_multiples_vanish(1000, mag as int);
        assert(mag as int * 1000 == 1000 * mag as int);
    }
    let m: u64 = (ca * 1000) / mag;
    if c >= 0 {
        m as i64
    } else {
        -(m as i64)
    }
}

// ---------------------------------------------------------------------------
// Euler integration
// ---------------------------------------------------------------------------

/// Millifixed displacement of one component over one tick:
/// `dir/1000 * speed * ms/1000`, truncated toward zero.
pub open spec fn spec_delta_milli(dir: i64, speed: i64, ms: u64) -> int
    recommends
        0 <= speed,
{
    let m = (abs(dir as int) * speed * ms) / 1_000_000;
    if dir >= 0 {
        m
    } else {
        0 - m
    }
}

pub open spec fn clamp_to_i64(v: int) -> i64 {
    if v > i64::MAX as int {
        i64::MAX
    } else if v < i64::MIN as int {
        i64::MIN
    } else {
        v as i64
    }
}

/// Explicit Euler step: `position += direction * speed * elapsed`, planar
/// components only, saturating at the representable range.
pub open spec fn spec_step_position(p: Vec3Milli, dir: Vec2Milli, speed: i64, ms: u64) -> Vec3Milli {
    Vec3Milli {
        x: clamp_to_i64(p.x as int + spec_delta_milli(dir.x, speed, ms)),
        y: clamp_to_i64(p.y as int + spec_delta_milli(dir.y, speed, ms)),
        z: p.z,
    }
}

fn step_component(pos: i64, dir: i64, speed: i64, ms: u64) -> (r: i64)
    requires
        0 <= speed <= SPEED_CAP,
        -DIR_ONE <= dir <= DIR_ONE,
        ms <= ELAPSED_CAP_MS,
    ensures
        r == clamp_to_i64(pos as int + spec_delta_milli(dir, speed, ms)),
{
    let da: u64 = if dir >= 0 {
        dir as u64
    } else {
        (-dir) as u64
    };
    proof {
        assert(da as int * (speed as u64) as int <= 1_000_000_000_000) by (nonlinear_arith)
            requires
                da <= 1000,
                0 <= speed <= 1_000_000_000,
                speed as u64 == speed as int,
        ;
        assert(da as int * (speed as u64) as int * ms as int <= 1_000_000_000_000_000_000)
            by (nonlinear_arith)
            requires
                0 <= da as int * (speed as u64) as int <= 1_000_000_000_000,
                ms <= 1_000_000,
        ;
        assert(da as int * speed as int * ms as int == abs(dir as int) * speed as int * ms as int)
            by (nonlinear_arith)
            requires
                da as int == abs(dir as int),
        ;
    }
    let prod: u64 = da * (speed as u64) * ms;
    let m: u64 = prod / 1_000_000;
    let delta: i64 = if dir >= 0 {
        m as i64
    } else {
        -(m as i64)
    };
    let sum: i128 = pos as i128 + delta as i128;
    if sum > i64::MAX as i128 {
        i64::MAX
    } else if sum < i64::MIN as i128 {
        i64::MIN
    } else {
        sum as i64
    }
}

/// Advance a position by one tick of motion along the stored direction.
pub fn step_position(p: Vec3Milli, dir: Vec2Milli, speed: i64, ms: u64) -> (r: Vec3Milli)
    requires
        0 <= speed <= SPEED_CAP,
        -DIR_ONE <= dir.x <= DIR_ONE,
        -DIR_ONE <= dir.y <= DIR_ONE,
        ms <= ELAPSED_CAP_MS,
    ensures
        r == spec_step_position(p, dir, speed, ms),
{
    let x = step_component(p.x, dir.x, speed, ms);
    let y = step_component(p.y, dir.y, speed, ms);
    Vec3Milli { x, y, z: p.z }
}

} // verus!

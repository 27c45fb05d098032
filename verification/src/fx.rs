//! Q16.16 signed fixed-point arithmetic.
//!
//! Every animated quantity in the engine (positions, rotations, opacities,
//! health, the arena size, the frame delta) is a [`Fx`]: an `i64` holding the
//! real value scaled by 2^16.  Values on the wire that arrive as IEEE 754
//! `f32` bit patterns are converted into this domain by
//! [`fx_from_f32_bits`], and all smoothing happens here with exact,
//! deterministic integer rules.

use vstd::prelude::*;

verus! {

use vstd::arithmetic::power2::{pow2, lemma_pow2_strictly_increases, lemma_pow2_adds, lemma2_to64};
use vstd::arithmetic::div_mod::lemma_basic_div;
use vstd::arithmetic::mul::lemma_mul_inequality;

/// Number of fractional bits: raw values are the real value times 2^16.
pub const FX_ONE: i64 = 65536;

/// Largest raw magnitude the engine works with (2^46, i.e. real values up to
/// about a billion).  Keeping every value inside this range lets all the
/// arithmetic below stay inside `i64`/`u64` without overflow.
pub const FX_MAX_RAW: i64 = 0x4000_0000_0000;

/// A Q16.16 fixed-point number.
#[derive(Clone, Copy, Debug, PartialEq, Eq, Structural)]
pub struct Fx {
    pub raw: i64,
}

/// Raw values the engine considers representable.
pub open spec fn fx_in_range(raw: int) -> bool {
    -FX_MAX_RAW <= raw <= FX_MAX_RAW
}

impl Fx {
    /// Well-formed: the raw value is inside the engine's working range.
    pub open spec fn wf(self) -> bool {
        fx_in_range(self.raw as int)
    }

    /// The zero value.
    pub fn zero() -> (r: Fx)
        ensures
            r.raw == 0,
            r.wf(),
    {
        Fx { raw: 0 }
    }

    /// The value one.
    pub fn one() -> (r: Fx)
        ensures
            r.raw == FX_ONE,
            r.wf(),
    {
        Fx { raw: FX_ONE }
    }

    /// Embed a signed 16-bit integer (wire positions, velocities).
    pub fn from_i16(v: i16) -> (r: Fx)
        ensures
            r.raw == v * FX_ONE,
            r.wf(),
    {
        Fx { raw: (v as i64) * FX_ONE }
    }

    /// Embed an unsigned 16-bit integer (arena sizes, radii).
    pub fn from_u16(v: u16) -> (r: Fx)
        ensures
            r.raw == v * FX_ONE,
            r.wf(),
    {
        Fx { raw: (v as i64) * FX_ONE }
    }

    /// Embed a signed 32-bit integer that is small enough to represent.
    pub fn from_i32(v: i32) -> (r: Fx)
        requires
            -0x4000_0000 <= v <= 0x4000_0000,
        ensures
            r.raw == v * FX_ONE,
            r.wf(),
    {
        Fx { raw: (v as i64) * FX_ONE }
    }
}

/// Clamp a mathematical raw value into the representable range.
pub open spec fn clamp_raw(x: int) -> int {
    if x > FX_MAX_RAW {
        FX_MAX_RAW as int
    } else if x < -FX_MAX_RAW {
        -FX_MAX_RAW as int
    } else {
        x
    }
}

/// Saturating addition; positions accumulate velocities with this so that no
/// sequence of frames can leave the representable range.
pub fn fx_add_sat(a: Fx, b: Fx) -> (r: Fx)
    requires
        a.wf(),
        b.wf(),
    ensures
        r.raw == clamp_raw(a.raw + b.raw),
        r.wf(),
{
    let s: i64 = a.raw + b.raw;
    if s > FX_MAX_RAW {
        Fx { raw: FX_MAX_RAW }
    } else if s < -FX_MAX_RAW {
        Fx { raw: -FX_MAX_RAW }
    } else {
        Fx { raw: s }
    }
}

/// Division truncating toward zero, as a spec-level rule.
pub open spec fn tdiv_raw(x: int, d: int) -> int {
    if x >= 0 {
        x / d
    } else {
        -((-x) / d)
    }
}

/// Divide by a small positive constant, truncating toward zero.  Used for
/// the empirically tuned velocity divisors (2, 3 and 4).
pub fn fx_div_small(a: Fx, d: u64) -> (r: Fx)
    requires
        a.wf(),
        1 <= d,
    ensures
        r.raw == tdiv_raw(a.raw as int, d as int),
        r.wf(),
{
    if a.raw >= 0 {
        let q: u64 = (a.raw as u64) / d;
        proof {
            lemma_div_le_self(a.raw as int, d as int);
        }
        Fx { raw: q as i64 }
    } else {
        let m: u64 = (-a.raw) as u64;
        let q: u64 = m / d;
        proof {
            lemma_div_le_self(m as int, d as int);
        }
        Fx { raw: -(q as i64) }
    }
}

/// For nonnegative `x` and positive `d`, `x / d <= x`.
proof fn lemma_div_le_self(x: int, d: int)
    requires
        0 <= x,
        1 <= d,
    ensures
        0 <= x / d <= x,
{
    vstd::arithmetic::div_mod::lemma_div_nonincreasing(x, d);
    vstd::arithmetic::div_mod::lemma_div_pos_is_pos(x, d);
}

/// The interpolation step: move `v` toward `t` by the fraction `r` of the
/// remaining distance (`r` is Q16.16, between 0 and one).  The step is
/// rounded away from zero so that a nonzero rate always makes progress.
pub open spec fn lerp_raw(v: int, t: int, r: int) -> int {
    if t >= v {
        v + ((t - v) * r + (FX_ONE - 1)) / (FX_ONE as int)
    } else {
        v - ((v - t) * r + (FX_ONE - 1)) / (FX_ONE as int)
    }
}

/// The rounded step never leaves the closed interval between `v` and `t`.
pub proof fn lemma_lerp_bounds(v: int, t: int, r: int)
    requires
        0 <= r <= FX_ONE,
    ensures
        t >= v ==> v <= lerp_raw(v, t, r) <= t,
        t < v ==> t <= lerp_raw(v, t, r) <= v,
        r == FX_ONE ==> lerp_raw(v, t, r) == t,
{
    let one = FX_ONE as int;
    if t >= v {
        let d = t - v;
        let num = d * r + (one - 1);
        assert(num >= 0) by (nonlinear_arith)
            requires num == d * r + (one - 1) && d >= 0 && r >= 0 && one == 65536;
        assert(num <= d * one + (one - 1)) by (nonlinear_arith)
            requires num == d * r + (one - 1) && d >= 0 && r <= one;
        assert(num / one >= 0) by {
            vstd::arithmetic::div_mod::lemma_div_pos_is_pos(num, one);
        }
        assert((d * one + (one - 1)) / one == d) by {
            vstd::arithmetic::div_mod::lemma_fundamental_div_mod_converse(
                d * one + (one - 1), one, d, one - 1);
        }
        assert(num / one <= d) by {
            vstd::arithmetic::div_mod::lemma_div_is_ordered(num, d * one + (one - 1), one);
        }
        if r == one {
            assert(num == d * one + (one - 1)) by (nonlinear_arith)
                requires r == one && num == d * r + (one - 1);
            assert(num / one == d) by (nonlinear_arith)
                requires d >= 0 && one == 65536 && num == d * one + (one - 1);
        }
    } else {
        let d = v - t;
        let num = d * r + (one - 1);
        assert(num >= 0) by (nonlinear_arith)
            requires num == d * r + (one - 1) && d >= 0 && r >= 0 && one == 65536;
        assert(num <= d * one + (one - 1)) by (nonlinear_arith)
            requires num == d * r + (one - 1) && d >= 0 && r <= one;
        assert(num / one >= 0) by {
            vstd::arithmetic::div_mod::lemma_div_pos_is_pos(num, one);
        }
        assert((d * one + (one - 1)) / one == d) by {
            vstd::arithmetic::div_mod::lemma_fundamental_div_mod_converse(
                d * one + (one - 1), one, d, one - 1);
        }
        assert(num / one <= d) by {
            vstd::arithmetic::div_mod::lemma_div_is_ordered(num, d * one + (one - 1), one);
        }
        if r == one {
            assert(num == d * one + (one - 1)) by (nonlinear_arith)
                requires r == one && num == d * r + (one - 1);
            assert(num / one == d) by (nonlinear_arith)
                requires d >= 0 && one == 65536 && num == d * one + (one - 1);
        }
    }
}

/// With a rate strictly between 0 and one and distinct endpoints, one step
/// strictly decreases the remaining distance and never crosses the target.
pub proof fn lemma_lerp_strict_progress(v: int, t: int, r: int)
    requires
        0 < r < FX_ONE,
        v != t,
    ensures
        t > v ==> v < lerp_raw(v, t, r) <= t,
        t < v ==> t <= lerp_raw(v, t, r) < v,
{
    lemma_lerp_bounds(v, t, r);
    let one = FX_ONE as int;
    if t > v {
        let d = t - v;
        let num = d * r + (one - 1);
        assert(num >= one) by (nonlinear_arith)
            requires num == d * r + (one - 1) && d >= 1 && r >= 1 && one == 65536;
        assert(num / one >= 1) by {
            vstd::arithmetic::div_mod::lemma_div_is_ordered(one, num, one);
            assert(one / one == 1);
        }
    } else {
        let d = v - t;
        let num = d * r + (one - 1);
        assert(num >= one) by (nonlinear_arith)
            requires num == d * r + (one - 1) && d >= 1 && r >= 1 && one == 65536;
        assert(num / one >= 1) by {
            vstd::arithmetic::div_mod::lemma_div_is_ordered(one, num, one);
            assert(one / one == 1);
        }
    }
}

/// Multiply by a fraction of one (damping factors), truncating toward
/// zero.
pub fn fx_mul_frac(v: Fx, f: i64) -> (r: Fx)
    requires
        v.wf(),
        0 <= f <= FX_ONE,
    ensures
        r.raw == tdiv_raw(v.raw * f, FX_ONE as int),
        r.wf(),
{
    if v.raw >= 0 {
        proof {
            assert((v.raw as u64) * (f as u64) <= (FX_MAX_RAW as u64) * (FX_ONE as u64))
                by (nonlinear_arith)
                requires 0 <= v.raw <= FX_MAX_RAW && 0 <= f <= FX_ONE;
        }
        let num: u64 = (v.raw as u64) * (f as u64);
        let q: u64 = num / 65536;
        proof {
            assert(v.raw * f == num as int) by (nonlinear_arith)
                requires
                    v.raw >= 0 && f >= 0 && num as int == (v.raw as u64) as int * (f as u64) as int;
            assert(num as int <= v.raw * 65536) by (nonlinear_arith)
                requires num as int == v.raw * f && v.raw >= 0 && f <= 65536;
            vstd::arithmetic::div_mod::lemma_div_is_ordered(num as int, v.raw * 65536, 65536);
            vstd::arithmetic::div_mod::lemma_div_multiples_vanish(v.raw as int, 65536);
            vstd::arithmetic::div_mod::lemma_div_pos_is_pos(num as int, 65536);
        }
        Fx { raw: q as i64 }
    } else {
        let m: u64 = (-v.raw) as u64;
        proof {
            assert(m * (f as u64) <= (FX_MAX_RAW as u64) * (FX_ONE as u64)) by (nonlinear_arith)
                requires 0 <= m <= FX_MAX_RAW as u64 && 0 <= f <= FX_ONE;
        }
        let num: u64 = m * (f as u64);
        let q: u64 = num / 65536;
        proof {
            assert((-v.raw) * f == num as int) by (nonlinear_arith)
                requires
                    m as int == -v.raw && f >= 0 && num as int == m as int * (f as u64) as int;
            assert(v.raw * f == -(num as int)) by (nonlinear_arith)
                requires num as int == (-v.raw) * f;
            assert(num as int <= m as int * 65536) by (nonlinear_arith)
                requires num as int == m as int * f && f <= 65536;
            vstd::arithmetic::div_mod::lemma_div_is_ordered(
                num as int,
                m as int * 65536,
                65536,
            );
            vstd::arithmetic::div_mod::lemma_div_multiples_vanish(m as int, 65536);
            vstd::arithmetic::div_mod::lemma_div_pos_is_pos(num as int, 65536);
        }
        Fx { raw: -(q as i64) }
    }
}

/// Scaling a base rate by the frame delta, capped at one so a long frame
/// never overshoots the target.
pub open spec fn rate_scaled(rate: int, delta: int) -> int {
    let s = rate * delta / (FX_ONE as int);
    if s > FX_ONE {
        FX_ONE as int
    } else {
        s
    }
}

/// Scale a base rate by the frame delta factor; the result is again a rate
/// between 0 and one, so motion speed is frame-rate independent.
pub fn fx_rate_scale(rate: Fx, delta: Fx) -> (r: Fx)
    requires
        0 <= rate.raw <= FX_ONE,
        0 <= delta.raw <= FX_MAX_RAW,
    ensures
        r.raw == rate_scaled(rate.raw as int, delta.raw as int),
        0 <= r.raw <= FX_ONE,
{
    proof {
        assert((rate.raw as u64) * (delta.raw as u64) <= 65536u64 * 0x4000_0000_0000u64)
            by (nonlinear_arith)
            requires 0 <= rate.raw <= 65536 && 0 <= delta.raw <= 0x4000_0000_0000i64;
    }
    let prod: u64 = (rate.raw as u64) * (delta.raw as u64);
    proof {
        vstd::arithmetic::div_mod::lemma_div_pos_is_pos(prod as int, FX_ONE as int);
    }
    let s: u64 = prod / 65536;
    if s > 65536 {
        Fx { raw: FX_ONE }
    } else {
        Fx { raw: s as i64 }
    }
}

/// Executable interpolation step; see [`lerp_raw`].
pub fn fx_lerp(v: Fx, t: Fx, r: Fx) -> (res: Fx)
    requires
        v.wf(),
        t.wf(),
        0 <= r.raw <= FX_ONE,
    ensures
        res.raw == lerp_raw(v.raw as int, t.raw as int, r.raw as int),
        res.wf(),
{
    proof {
        lemma_lerp_bounds(v.raw as int, t.raw as int, r.raw as int);
    }
    if t.raw >= v.raw {
        let d: u64 = (t.raw - v.raw) as u64;
        let num: u64 = d * (r.raw as u64) + 65535;
        let step: u64 = num / 65536;
        proof {
            assert(d * (r.raw as u64) <= (2 * FX_MAX_RAW) as u64 * (FX_ONE as u64)) by (nonlinear_arith)
                requires d <= (2 * FX_MAX_RAW) as u64 && 0 <= r.raw <= FX_ONE;
        }
        Fx { raw: v.raw + step as i64 }
    } else {
        let d: u64 = (v.raw - t.raw) as u64;
        let num: u64 = d * (r.raw as u64) + 65535;
        let step: u64 = num / 65536;
        proof {
            assert(d * (r.raw as u64) <= (2 * FX_MAX_RAW) as u64 * (FX_ONE as u64)) by (nonlinear_arith)
                requires d <= (2 * FX_MAX_RAW) as u64 && 0 <= r.raw <= FX_ONE;
        }
        Fx { raw: v.raw - step as i64 }
    }
}

/// Sign field of an IEEE 754 single-precision bit pattern (0 or 1).
pub open spec fn f32_sign(bits: u32) -> int {
    bits as int / 0x8000_0000
}

/// Biased exponent field of an IEEE 754 single-precision bit pattern.
pub open spec fn f32_exp(bits: u32) -> int {
    (bits as int / 0x80_0000) % 0x100
}

/// Fraction field of an IEEE 754 single-precision bit pattern.
pub open spec fn f32_frac(bits: u32) -> int {
    bits as int % 0x80_0000
}

/// Whether the bit pattern encodes a NaN.
pub open spec fn f32_is_nan(bits: u32) -> bool {
    f32_exp(bits) == 255 && f32_frac(bits) != 0
}

/// The significand with the hidden bit made explicit for normal numbers.
pub open spec fn f32_sig(bits: u32) -> int {
    if f32_exp(bits) == 0 {
        f32_frac(bits)
    } else {
        f32_frac(bits) + 0x80_0000
    }
}

/// Magnitude of the encoded value, scaled by 2^16 and truncated toward
/// zero.  A finite single value is `sig * 2^(e - 150)` (with the subnormal
/// exponent reading as 1), so scaled by 2^16 it is `sig * 2^(e - 134)`.
/// Infinities read as just past the representable range.
pub open spec fn f32_mag_q16(bits: u32) -> int {
    let e = f32_exp(bits);
    if e == 255 {
        FX_MAX_RAW + 1
    } else {
        let eff = if e == 0 {
            1int
        } else {
            e
        };
        if eff >= 134 {
            f32_sig(bits) * pow2((eff - 134) as nat)
        } else {
            f32_sig(bits) / pow2((134 - eff) as nat) as int
        }
    }
}

/// The engine's reading of an `f32` bit pattern: the encoded value scaled by
/// 2^16, truncated toward zero and saturated at the representable range.
/// NaN reads as zero; negative zero reads as zero.
pub open spec fn fx_of_f32_bits(bits: u32) -> int {
    if f32_is_nan(bits) {
        0
    } else {
        let m = if f32_mag_q16(bits) > FX_MAX_RAW {
            FX_MAX_RAW as int
        } else {
            f32_mag_q16(bits)
        };
        if f32_sign(bits) == 1 {
            -m
        } else {
            m
        }
    }
}

/// Executable power of two for shift counts below 64.
fn pow2_u64(k: u64) -> (r: u64)
    requires
        k <= 63,
    ensures
        r == pow2(k as nat),
{
    let mut i: u64 = 0;
    let mut acc: u64 = 1;
    proof {
        lemma2_to64();
    }
    while i < k
        invariant
            i <= k <= 63,
            acc == pow2(i as nat),
        decreases k - i,
    {
        proof {
            lemma_pow2_adds(i as nat, 1);
            lemma2_to64();
            if (i as nat) < 63 {
                lemma_pow2_strictly_increases(i as nat, 63);
            }
            vstd::arithmetic::power2::lemma2_to64_rest();
        }
        acc = acc * 2;
        i = i + 1;
    }
    acc
}

/// Convert an `f32` bit pattern read from the wire into the fixed-point
/// domain; see [`fx_of_f32_bits`] for the exact reading.
pub fn fx_from_f32_bits(bits: u32) -> (r: Fx)
    ensures
        r.raw == fx_of_f32_bits(bits),
        r.wf(),
{
    proof {
        lemma2_to64();
        vstd::arithmetic::power2::lemma2_to64_rest();
    }
    let sign: u32 = bits / 0x8000_0000;
    let e: u32 = (bits / 0x80_0000) % 0x100;
    let frac: u32 = bits % 0x80_0000;
    if e == 255 && frac != 0 {
        return Fx { raw: 0 };
    }
    let sig: u64 = if e == 0 {
        frac as u64
    } else {
        frac as u64 + 0x80_0000
    };
    let mag: u64 = if e == 255 {
        FX_MAX_RAW as u64
    } else {
        let eff: u32 = if e == 0 {
            1
        } else {
            e
        };
        if eff >= 134 {
            let sh: u64 = (eff - 134) as u64;
            if sh >= 24 {
                proof {
                    if (sh as nat) > 24 {
                        lemma_pow2_strictly_increases(24, sh as nat);
                    }
                    assert(f32_sig(bits) * pow2(sh as nat) > FX_MAX_RAW) by (nonlinear_arith)
                        requires
                            f32_sig(bits) >= 0x80_0000,
                            pow2(sh as nat) >= 0x100_0000,
                            FX_MAX_RAW == 0x4000_0000_0000i64;
                }
                FX_MAX_RAW as u64
            } else {
                let p: u64 = pow2_u64(sh);
                proof {
                    if (sh as nat) < 23 {
                        lemma_pow2_strictly_increases(sh as nat, 23);
                    }
                    assert(sig * p <= 0xff_ffff_u64 * 0x80_0000u64) by (nonlinear_arith)
                        requires sig <= 0xff_ffff_u64 && p <= 0x80_0000u64;
                }
                let m0: u64 = sig * p;
                if m0 > FX_MAX_RAW as u64 {
                    FX_MAX_RAW as u64
                } else {
                    m0
                }
            }
        } else {
            let sh: u32 = 134 - eff;
            if sh >= 24 {
                proof {
                    if (sh as nat) > 24 {
                        lemma_pow2_strictly_increases(24, sh as nat);
                    }
                    lemma_basic_div(f32_sig(bits), pow2(sh as nat) as int);
                }
                0
            } else {
                let p: u64 = pow2_u64(sh as u64);
                proof {
                    vstd::arithmetic::power2::lemma_pow2_pos(sh as nat);
                }
                sig / p
            }
        }
    };
    proof {
        lemma_div_le_self(sig as int, 1);
    }
    if sign == 1 {
        Fx { raw: -(mag as i64) }
    } else {
        Fx { raw: mag as i64 }
    }
}

} // verus!

//! Interpolation primitives: smoothed scalars, 2D vectors, shortest-path
//! angle interpolation and the frame-delta clock.
//!
//! A smoothed value holds a rendered `value` and an authoritative target
//! `tv`; `value` only ever moves toward `tv` by an exponential-decay step,
//! and `tv` is only ever written by the reconciler from snapshot data.

use vstd::prelude::*;

verus! {

use crate::fx::{
    Fx, FX_ONE, FX_MAX_RAW, fx_in_range, fx_lerp, fx_div_small, fx_add_sat, lerp_raw, tdiv_raw,
    clamp_raw, lemma_lerp_bounds, lemma_lerp_strict_progress,
};

/// Holds two values of the same kind, one per axis.
#[derive(Clone, Copy, Debug)]
pub struct Vector2<T> {
    pub x: T,
    pub y: T,
}

/// Holds a rendered value and a target value, useful as a lerp target.
#[derive(Clone, Copy, Debug)]
pub struct Scalar {
    pub value: Fx,
    pub tv: Fx,
}

impl Scalar {
    /// Both members are inside the representable range.
    pub open spec fn wf(self) -> bool {
        self.value.wf() && self.tv.wf()
    }

    /// What one interpolation step leaves behind, at the spec level.
    pub open spec fn spec_update(self, e: Fx) -> Scalar {
        Scalar {
            value: Fx { raw: lerp_raw(self.value.raw as int, self.tv.raw as int, e.raw as int) as i64 },
            tv: self.tv,
        }
    }

    /// What retargeting followed by one step leaves behind.
    pub open spec fn spec_set_update(self, e: Fx, t: Fx) -> Scalar {
        (Scalar { value: self.value, tv: e }).spec_update(t)
    }

    /// A freshly created smoothed value starts with `value == tv`, so that
    /// creation never ramps in from an unrelated starting point.
    pub fn new(e: Fx) -> (r: Scalar)
        ensures
            r.value == e,
            r.tv == e,
    {
        Scalar { value: e, tv: e }
    }

    /// Move `value` toward `tv` by the fraction `e` of the remaining
    /// distance.  The target is never written here.
    pub fn update(&mut self, e: Fx)
        requires
            old(self).wf(),
            0 <= e.raw <= FX_ONE,
        ensures
            *final(self) == old(self).spec_update(e),
            final(self).wf(),
    {
        proof {
            lemma_lerp_bounds(self.value.raw as int, self.tv.raw as int, e.raw as int);
        }
        self.value = fx_lerp(self.value, self.tv, e);
    }

    /// Retarget and immediately take one step, so a discrete event takes
    /// effect in the same tick it is issued.
    pub fn set_update(&mut self, e: Fx, t: Fx)
        requires
            old(self).wf(),
            e.wf(),
            0 <= t.raw <= FX_ONE,
        ensures
            *final(self) == old(self).spec_set_update(e, t),
            final(self).wf(),
    {
        self.tv = e;
        self.update(t);
    }
}

/// Repeated update steps with a rate strictly between zero and one strictly
/// decrease the distance between value and target, and the value never
/// crosses past the target.
pub proof fn lemma_scalar_convergence(s: Scalar, e: Fx)
    requires
        s.wf(),
        0 < e.raw < FX_ONE,
        s.value.raw != s.tv.raw,
    ensures
        s.spec_update(e).tv == s.tv,
        vstd::math::abs(s.spec_update(e).value.raw - s.tv.raw) < vstd::math::abs(
            s.value.raw - s.tv.raw,
        ),
        s.value.raw < s.tv.raw ==> s.value.raw < s.spec_update(e).value.raw <= s.tv.raw,
        s.value.raw > s.tv.raw ==> s.tv.raw <= s.spec_update(e).value.raw < s.value.raw,
{
    lemma_lerp_strict_progress(s.value.raw as int, s.tv.raw as int, e.raw as int);
    lemma_lerp_bounds(s.value.raw as int, s.tv.raw as int, e.raw as int);
}

/// A full turn (2π) in Q16.16, rounded to the nearest raw unit.
pub const TAU_RAW: i64 = 411775;

/// Half a turn: the largest shortest-path rotation magnitude.
pub const HALF_TAU_RAW: i64 = 205887;

/// Wrapped angular difference: congruent to `d` modulo a full turn and
/// lying in the half-open band of one half turn on either side, so it is
/// the shortest rotation from one heading to the other.
pub open spec fn angle_delta(d: int) -> int {
    let m = d % (TAU_RAW as int);
    if m > HALF_TAU_RAW {
        m - TAU_RAW
    } else {
        m
    }
}

/// Spec of [`lerp_angle`]: walk the fraction `t` of the shortest rotation
/// from `a` toward `b`, saturating at the representable range.
pub open spec fn lerp_angle_raw(a: int, b: int, t: int) -> int {
    clamp_raw(a + tdiv_raw(angle_delta(b - a) * t, FX_ONE as int))
}

/// The wrapped difference stays within half a turn of zero and is congruent
/// to the raw difference modulo a full turn: interpolation takes the
/// shortest angular path and is continuous across the wrap boundary.
pub proof fn lemma_angle_delta_shortest(d: int)
    ensures
        -HALF_TAU_RAW <= angle_delta(d) <= HALF_TAU_RAW,
        angle_delta(d) % (TAU_RAW as int) == d % (TAU_RAW as int),
{
    let tau = TAU_RAW as int;
    let m = d % tau;
    vstd::arithmetic::div_mod::lemma_mod_division_less_than_divisor(d, tau);
    if m > HALF_TAU_RAW {
        vstd::arithmetic::div_mod::lemma_mod_sub_multiples_vanish(m, tau);
        vstd::arithmetic::div_mod::lemma_small_mod(m as nat, tau as nat);
        vstd::arithmetic::div_mod::lemma_mod_twice(d, tau);
    } else {
        vstd::arithmetic::div_mod::lemma_small_mod(m as nat, tau as nat);
        vstd::arithmetic::div_mod::lemma_mod_twice(d, tau);
    }
}

/// Interpolate between two angles along the shortest angular path.  Linear
/// interpolation straight on the raw values would travel the long way
/// around near the wrap boundary; wrapping the difference first guarantees
/// the short way, continuously across the boundary.
pub fn lerp_angle(a: Fx, b: Fx, t: Fx) -> (r: Fx)
    requires
        a.wf(),
        b.wf(),
        0 <= t.raw <= FX_ONE,
    ensures
        r.raw == lerp_angle_raw(a.raw as int, b.raw as int, t.raw as int),
        r.wf(),
{
    let tau = TAU_RAW;
    let d: i64 = b.raw - a.raw;
    let m: i64 = if d >= 0 {
        ((d as u64) % (tau as u64)) as i64
    } else {
        let p: u64 = ((-d) as u64) % (tau as u64);
        proof {
            let di = d as int;
            let taui = tau as int;
            vstd::arithmetic::div_mod::lemma_fundamental_div_mod(-di, taui);
            let q = (-di) / taui;
            if p == 0 {
                vstd::arithmetic::div_mod::lemma_fundamental_div_mod_converse(di, taui, -q, 0);
            } else {
                vstd::arithmetic::div_mod::lemma_fundamental_div_mod_converse(
                    di,
                    taui,
                    -q - 1,
                    taui - p,
                );
            }
        }
        if p == 0 {
            0
        } else {
            tau - p as i64
        }
    };
    let wd: i64 = if m > HALF_TAU_RAW {
        m - tau
    } else {
        m
    };
    proof {
        assert(-205887 * 65536 <= wd * t.raw <= 205887 * 65536) by (nonlinear_arith)
            requires -205887 <= wd <= 205887 && 0 <= t.raw <= 65536;
    }
    let prod: i64 = wd * t.raw;
    let step: Fx = fx_div_small(Fx { raw: prod }, 65536);
    fx_add_sat(a, Fx { raw: step.raw })
}

/// Microseconds of wall-clock gap above which the delta is reset instead of
/// smoothed (the tab was backgrounded; never replay the backlog as one
/// catch-up jump).
pub const RESET_GAP_US: u64 = 500000;

/// Nominal frame duration in microseconds (~60Hz).
pub const NOMINAL_FRAME_US: u64 = 16000;

/// The exponential-average decay applied to the raw delta (0.7 in Q16.16).
pub const DELTA_DECAY_RAW: i64 = 45875;

/// Largest smoothed delta: the reset gap divided by the nominal frame.
pub const DELTA_MAX_RAW: i64 = 2048000;

/// Wall-clock driven frame-delta computation.  Each tick produces a factor
/// (1 or more, in Q16.16) by which base rates are scaled so that motion
/// speed is independent of the actual frame rate.
#[derive(Clone, Copy, Debug)]
pub struct FrameClock {
    pub last_time_us: u64,
    pub delta: Fx,
}

impl FrameClock {
    /// The smoothed delta is always at least one (never render in slow
    /// motion) and bounded by the reset gap.
    pub open spec fn wf(self) -> bool {
        FX_ONE <= self.delta.raw <= DELTA_MAX_RAW
    }

    /// What one clock tick leaves behind: the raw elapsed-over-nominal
    /// ratio, blended with the previous delta by the decay factor, floored
    /// at one, and reset outright on a long gap or a clock running
    /// backwards.
    pub open spec fn spec_tick(self, now_us: u64) -> FrameClock {
        if now_us < self.last_time_us || now_us - self.last_time_us > RESET_GAP_US {
            FrameClock { last_time_us: now_us, delta: Fx { raw: FX_ONE } }
        } else {
            let raw = (now_us - self.last_time_us) * (FX_ONE as int) / (NOMINAL_FRAME_US as int);
            let mixed = raw + tdiv_raw((self.delta.raw - raw) * DELTA_DECAY_RAW, FX_ONE as int);
            let floored = if mixed < FX_ONE {
                FX_ONE as int
            } else {
                mixed
            };
            FrameClock { last_time_us: now_us, delta: Fx { raw: floored as i64 } }
        }
    }

    /// Start the clock at the given instant with a neutral delta.
    pub fn new(now_us: u64) -> (r: FrameClock)
        ensures
            r.last_time_us == now_us,
            r.delta.raw == FX_ONE,
            r.wf(),
    {
        FrameClock { last_time_us: now_us, delta: Fx { raw: FX_ONE } }
    }

    /// Advance the clock to `now_us` and return the delta for this frame.
    pub fn tick(&mut self, now_us: u64) -> (delta: Fx)
        requires
            old(self).wf(),
        ensures
            *final(self) == old(self).spec_tick(now_us),
            delta == final(self).delta,
            final(self).wf(),
            final(self).delta.wf(),
    {
        if now_us < self.last_time_us || now_us - self.last_time_us > RESET_GAP_US {
            self.last_time_us = now_us;
            self.delta = Fx { raw: FX_ONE };
            return self.delta;
        }
        let el: u64 = now_us - self.last_time_us;
        let raw_u: u64 = el * 65536 / 16000;
        proof {
            assert(el * 65536 <= 500000 * 65536) by (nonlinear_arith)
                requires el <= 500000u64;
            vstd::arithmetic::div_mod::lemma_div_is_ordered(
                el * 65536,
                500000int * 65536,
                16000,
            );
            assert(500000 * 65536 / 16000 == 2048000) by (nonlinear_arith);
            vstd::arithmetic::div_mod::lemma_div_pos_is_pos(el * 65536, 16000);
        }
        let raw: i64 = raw_u as i64;
        let diff: i64 = self.delta.raw - raw;
        let step: Fx = fx_div_small(Fx { raw: diff * DELTA_DECAY_RAW }, 65536);
        proof {
            assert(-2048000 * 45875 <= diff * 45875 <= 2048000 * 45875) by (nonlinear_arith)
                requires -2048000 <= diff <= 2048000;
        }
        let mixed: i64 = raw + step.raw;
        proof {
            lemma_step_bounded(diff as int);
        }
        let floored: i64 = if mixed < FX_ONE {
            FX_ONE
        } else {
            mixed
        };
        self.last_time_us = now_us;
        self.delta = Fx { raw: floored };
        self.delta
    }
}

/// The decay step never exceeds the distance it decays.
proof fn lemma_step_bounded(diff: int)
    ensures
        diff >= 0 ==> 0 <= tdiv_raw(diff * DELTA_DECAY_RAW, FX_ONE as int) <= diff,
        diff < 0 ==> diff <= tdiv_raw(diff * DELTA_DECAY_RAW, FX_ONE as int) <= 0,
{
    let one = FX_ONE as int;
    let f = DELTA_DECAY_RAW as int;
    if diff >= 0 {
        let num = diff * f;
        assert(0 <= num <= diff * one) by (nonlinear_arith)
            requires num == diff * f && diff >= 0 && 0 <= f <= one;
        vstd::arithmetic::div_mod::lemma_div_pos_is_pos(num, one);
        vstd::arithmetic::div_mod::lemma_div_is_ordered(num, diff * one, one);
        vstd::arithmetic::div_mod::lemma_div_multiples_vanish(diff, one);
    } else {
        let m = -diff;
        let num = m * f;
        assert(0 <= num <= m * one) by (nonlinear_arith)
            requires num == m * f && m >= 0 && 0 <= f <= one;
        vstd::arithmetic::div_mod::lemma_div_pos_is_pos(num, one);
        vstd::arithmetic::div_mod::lemma_div_is_ordered(num, m * one, one);
        vstd::arithmetic::div_mod::lemma_div_multiples_vanish(m, one);
        assert(diff * f == -num) by (nonlinear_arith)
            requires num == (-diff) * f;
    }
}

} // verus!

//! Laws of the control algorithm: dead-band idempotence, the step cap,
//! and convergence of the rate limiter.

use vstd::prelude::*;

use crate::thermalmanager::ThermalManager;
use crate::thermalmanager::clamp_spec;
use crate::thermalmanager::rate_limit;
use crate::thermalmanager::round_div;
use crate::thermalmanager::select_raw;
use crate::thermalmanager::smooth_spec;
use crate::thermalmanager::target_spec;
use crate::thermalmanager::window_spec;
use crate::thermalmanager::zip_spec;
use vstd::arithmetic::div_mod::lemma_div_is_ordered;
use vstd::arithmetic::div_mod::lemma_fundamental_div_mod_converse;

verus! {

/// Curve selection hits the highest qualifying entry: when position `k`
/// is the last whose threshold the temperature reaches by the hysteresis
/// margin, the selection returns exactly that entry's level.  On an
/// ascending curve this is the hottest tier the temperature qualifies
/// for.
pub proof fn lemma_select_raw_at(
    pairs: Seq<(u64, u64)>,
    temp: int,
    hysteresis: int,
    fallback: int,
    k: int,
)
    requires
        0 <= k < pairs.len(),
        temp >= pairs[k].0 + hysteresis,
        forall|j: int| k < j < pairs.len() ==> temp < (#[trigger] pairs[j]).0 + hysteresis,
    ensures
        select_raw(pairs, temp, hysteresis, fallback) == pairs[k].1,
    decreases pairs.len(),
{
    if k < pairs.len() - 1 {
        let sub = pairs.drop_last();
        assert(forall|j: int| 0 <= j < sub.len() ==> sub[j] == pairs[j]);
        lemma_select_raw_at(sub, temp, hysteresis, fallback, k);
    }
}

/// Curve selection falls back when no entry qualifies: when the
/// temperature reaches no threshold by the hysteresis margin, the
/// selection returns the fallback (the configured floor).
pub proof fn lemma_select_raw_none(pairs: Seq<(u64, u64)>, temp: int, hysteresis: int, fallback: int)
    requires
        forall|j: int| 0 <= j < pairs.len() ==> temp < (#[trigger] pairs[j]).0 + hysteresis,
    ensures
        select_raw(pairs, temp, hysteresis, fallback) == fallback,
    decreases pairs.len(),
{
    if pairs.len() > 0 {
        let sub = pairs.drop_last();
        assert(forall|j: int| 0 <= j < sub.len() ==> sub[j] == pairs[j]);
        lemma_select_raw_none(sub, temp, hysteresis, fallback);
    }
}

/// Whether the interpolated target for `temp` lies within the hysteresis
/// dead-band around the level `c`: the curve must bracket the temperature
/// on at least one side, and the exact (fractional) target must differ
/// from `c` by at most `hys`.
pub open spec fn in_dead_band(pairs: Seq<(u64, u64)>, temp: int, c: int, hys: int) -> bool {
    match window_spec(pairs, temp) {
        Some((l, up)) => match up {
            Some(u) => {
                let den = u.0 - l.0;
                let num = l.1 * den + (temp - l.0) * (u.1 - l.1);
                if num >= c * den {
                    num - c * den <= hys * den
                } else {
                    c * den - num <= hys * den
                }
            },
            None => if l.1 >= c {
                l.1 - c <= hys
            } else {
                c - l.1 <= hys
            },
        },
        None => false,
    }
}

/// Dead-band idempotence over the smoothing function: while the
/// interpolated target differs from the observed level by no more than
/// the hysteresis band, the smoothed command is the observed level
/// itself, so the tick changes nothing.
pub proof fn lemma_dead_band_idempotent(
    pairs: Seq<(u64, u64)>,
    temp: int,
    c: int,
    hys: int,
    cap: int,
    lo: int,
    hi: int,
)
    requires
        lo <= c <= hi,
        in_dead_band(pairs, temp, c, hys),
    ensures
        smooth_spec(pairs, temp, c, hys, cap, lo, hi) == c,
{
}

/// Dead-band idempotence at the controller: with smoothing enabled, an
/// observed level inside `[floor, ceiling]`, and the target interpolated
/// at the smoothed estimate within the hysteresis band of that level,
/// the computed target equals the observed level — so
/// `set_target_fan_speed` returns `None` at every timestamp.  While the
/// estimate and the observed level hold still (a window saturated by a
/// constant reading), the condition persists, so ticking forever never
/// issues an actuator call.
pub proof fn lemma_dead_band_no_command(m: ThermalManager)
    requires
        m.config.smooth_mode,
        m.config.fan_speed_floor <= m.current_fan_speed <= m.config.fan_speed_ceiling,
        in_dead_band(
            zip_spec(m.config.temp_thresholds@, m.config.fan_speeds@),
            m.temp_average as int,
            m.current_fan_speed as int,
            m.config.hysteresis as int,
        ),
    ensures
        target_spec(m) == m.current_fan_speed,
{
    lemma_dead_band_idempotent(
        zip_spec(m.config.temp_thresholds@, m.config.fan_speeds@),
        m.temp_average as int,
        m.current_fan_speed as int,
        m.config.hysteresis as int,
        m.config.smooth_mode_max_fan_step as int,
        m.config.fan_speed_floor as int,
        m.config.fan_speed_ceiling as int,
    );
}

/// If a non-negative fraction is at least the integer `k`, so is its
/// rounding to the nearest integer.
proof fn lemma_round_div_ge(num: int, den: int, k: int)
    requires
        den >= 1,
        num >= k * den,
    ensures
        round_div(num, den) >= k,
{
    assert(2 * num + den >= k * (2 * den) + den) by (nonlinear_arith)
        requires
            num >= k * den,
    ;
    lemma_fundamental_div_mod_converse(k * (2 * den) + den, 2 * den, k, den);
    lemma_div_is_ordered(k * (2 * den) + den, 2 * num + den, 2 * den);
}

/// If a non-negative fraction is at most the integer `k`, so is its
/// rounding to the nearest integer.
proof fn lemma_round_div_le(num: int, den: int, k: int)
    requires
        den >= 1,
        num <= k * den,
    ensures
        round_div(num, den) <= k,
{
    assert(2 * num + den <= k * (2 * den) + den) by (nonlinear_arith)
        requires
            num <= k * den,
    ;
    lemma_fundamental_div_mod_converse(k * (2 * den) + den, 2 * den, k, den);
    lemma_div_is_ordered(2 * num + den, k * (2 * den) + den, 2 * den);
}

/// Step-cap: one rate-limiter step never moves the level by more than
/// the configured maximum step in either direction, whatever the target.
pub proof fn lemma_step_cap(c: int, num: int, den: int, hys: int, cap: int, lo: int, hi: int)
    requires
        1 <= den,
        0 <= num,
        0 <= hys,
        0 <= cap,
        lo <= c <= hi,
    ensures
        c - cap <= rate_limit(c, num, den, hys, cap, lo, hi) <= c + cap,
{
    let scaled = c * den;
    if num >= scaled {
        let delta = num - scaled;
        if delta <= hys * den {
        } else if delta > cap * den {
        } else {
            // c * den <= num <= (c + cap) * den, so the rounded target
            // lies between c and c + cap.
            assert(num <= (c + cap) * den) by (nonlinear_arith)
                requires
                    num - c * den <= cap * den,
            ;
            lemma_round_div_ge(num, den, c);
            lemma_round_div_le(num, den, c + cap);
        }
    } else {
        let delta = scaled - num;
        if delta <= hys * den {
        } else if delta > cap * den {
        } else {
            assert(num >= (c - cap) * den) by (nonlinear_arith)
                requires
                    c * den - num <= cap * den,
            ;
            lemma_round_div_ge(num, den, c - cap);
            lemma_round_div_le(num, den, c);
        }
    }
}

/// Step-cap at the controller: with smoothing enabled, a curve that
/// brackets the smoothed estimate, and an observed level inside
/// `[floor, ceiling]`, the computed target never differs from the
/// observed level by more than the configured maximum step.
pub proof fn lemma_step_cap_controller(m: ThermalManager)
    requires
        m.wf(),
        m.config.smooth_mode,
        m.config.fan_speed_floor <= m.current_fan_speed <= m.config.fan_speed_ceiling,
        window_spec(
            zip_spec(m.config.temp_thresholds@, m.config.fan_speeds@),
            m.temp_average as int,
        ) is Some,
    ensures
        m.current_fan_speed - m.config.smooth_mode_max_fan_step <= target_spec(m)
            <= m.current_fan_speed + m.config.smooth_mode_max_fan_step,
{
    let pairs = zip_spec(m.config.temp_thresholds@, m.config.fan_speeds@);
    let temp = m.temp_average as int;
    let c = m.current_fan_speed as int;
    let hys = m.config.hysteresis as int;
    let cap = m.config.smooth_mode_max_fan_step as int;
    let lo = m.config.fan_speed_floor as int;
    let hi = m.config.fan_speed_ceiling as int;
    crate::thermalmanager::lemma_config_curve_wf(m.config);
    crate::thermalmanager::lemma_window_sorted(pairs, temp);
    match window_spec(pairs, temp) {
        Some((l, up)) => match up {
            Some(u) => {
                let den = u.0 - l.0;
                let num = l.1 * den + (temp - l.0) * (u.1 - l.1);
                assert(num >= 0) by (nonlinear_arith)
                    requires
                        l.1 >= 0,
                        den >= 1,
                        temp - l.0 >= 0,
                        u.1 - l.1 >= 0,
                        num == l.1 * den + (temp - l.0) * (u.1 - l.1),
                ;
                lemma_step_cap(c, num, den as int, hys, cap, lo, hi);
            },
            None => {
                lemma_step_cap(c, l.1 as int, 1, hys, cap, lo, hi);
            },
        },
        None => {},
    }
}

/// The level after `n` rate-limiter ticks toward a fixed target given
/// as the fraction `num / den`, with no dead-band, each tick's result
/// fed back as the observed level.
pub open spec fn iterate_rate_limit(
    c: int,
    num: int,
    den: int,
    cap: int,
    lo: int,
    hi: int,
    n: nat,
) -> int
    decreases n,
{
    if n == 0 {
        c
    } else {
        iterate_rate_limit(
            rate_limit(c, num, den, 0, cap, lo, hi),
            num,
            den,
            cap,
            lo,
            hi,
            (n - 1) as nat,
        )
    }
}

/// The level the rate limiter settles on: the exact target rounded to
/// the nearest integer and clamped into the band.
pub open spec fn settled_level(num: int, den: int, lo: int, hi: int) -> int {
    clamp_spec(round_div(num, den), lo, hi)
}

/// The number of ticks the rate limiter needs to cover the distance from
/// `c` to `t` in steps of at most `cap`.
pub open spec fn ticks_to_converge(c: int, t: int, cap: int) -> int {
    let d = if t >= c {
        t - c
    } else {
        c - t
    };
    (d + cap - 1) / cap
}

/// The rounded quotient sits within half a denominator of the exact
/// fraction: `2 * num` lies in `[2*r*den - den, 2*r*den + den)` for `r`
/// its rounding.
proof fn lemma_round_div_props(num: int, den: int)
    requires
        den >= 1,
    ensures
        2 * num >= 2 * round_div(num, den) * den - den,
        2 * num < 2 * round_div(num, den) * den + den,
{
    let r = round_div(num, den);
    vstd::arithmetic::div_mod::lemma_fundamental_div_mod(2 * num + den, 2 * den);
    vstd::arithmetic::div_mod::lemma_mod_division_less_than_divisor(2 * num + den, 2 * den);
    let rem = (2 * num + den) % (2 * den);
    assert(2 * num + den == 2 * den * r + rem);
    assert(2 * den * r == 2 * r * den) by (nonlinear_arith);
}

/// Each rate-limiter tick moves the level the lesser of the remaining
/// distance and the step cap toward the settled level: exactly `cap`
/// while the settled level is further than one step, and onto it once it
/// is within reach (so the settled level itself is a fixed point).
pub proof fn lemma_rate_limit_step_toward(c: int, num: int, den: int, cap: int, lo: int, hi: int)
    requires
        den >= 1,
        cap >= 1,
        num >= 0,
        lo <= c <= hi,
    ensures
        ({
            let t = settled_level(num, den, lo, hi);
            let d = if t >= c {
                t - c
            } else {
                c - t
            };
            rate_limit(c, num, den, 0, cap, lo, hi) == if d > cap {
                if t >= c {
                    c + cap
                } else {
                    c - cap
                }
            } else {
                t
            }
        }),
{
    let r = round_div(num, den);
    let t = settled_level(num, den, lo, hi);
    lemma_round_div_props(num, den);
    if c < t {
        // the rounding lies at or beyond the target band position
        assert(r >= t);
        assert(num - c * den >= 1) by (nonlinear_arith)
            requires
                2 * num >= 2 * r * den - den,
                r >= c + 1,
                den >= 1,
        ;
        if t - c > cap {
            // more than one step away: the tick takes the full capped move
            assert(num - c * den > cap * den) by (nonlinear_arith)
                requires
                    2 * num >= 2 * r * den - den,
                    r >= c + cap + 1,
                    den >= 1,
            ;
            assert(rate_limit(c, num, den, 0, cap, lo, hi) == clamp_spec(c + cap, lo, hi));
        } else {
            if num - c * den > cap * den {
                // the fraction sits beyond one step but rounds into reach
                assert(num >= (c + cap) * den) by (nonlinear_arith)
                    requires
                        num - c * den > cap * den,
                ;
                lemma_round_div_ge(num, den, c + cap);
                assert(rate_limit(c, num, den, 0, cap, lo, hi) == clamp_spec(c + cap, lo, hi));
                assert(clamp_spec(c + cap, lo, hi) == t);
            }
        }
    } else if c > t {
        assert(r <= t);
        assert(c * den - num >= 1) by (nonlinear_arith)
            requires
                2 * num < 2 * r * den + den,
                r <= c - 1,
                den >= 1,
        ;
        if c - t > cap {
            assert(c * den - num > cap * den) by (nonlinear_arith)
                requires
                    2 * num < 2 * r * den + den,
                    r <= c - cap - 1,
                    den >= 1,
            ;
            assert(rate_limit(c, num, den, 0, cap, lo, hi) == clamp_spec(c - cap, lo, hi));
        } else {
            if c * den - num > cap * den {
                assert(num <= (c - cap) * den) by (nonlinear_arith)
                    requires
                        c * den - num > cap * den,
                ;
                lemma_round_div_le(num, den, c - cap);
                assert(rate_limit(c, num, den, 0, cap, lo, hi) == clamp_spec(c - cap, lo, hi));
                assert(clamp_spec(c - cap, lo, hi) == t);
            }
        }
    } else {
        // at the settled level: the tick holds it
        if lo <= r <= hi {
            // the change to the exact target is at most half a unit,
            // well inside one step
            assert(num >= c * den ==> num - c * den <= cap * den) by (nonlinear_arith)
                requires
                    2 * num < 2 * r * den + den,
                    r == c,
                    den >= 1,
                    cap >= 1,
            ;
            assert(num < c * den ==> c * den - num <= cap * den) by (nonlinear_arith)
                requires
                    2 * num >= 2 * r * den - den,
                    r == c,
                    den >= 1,
                    cap >= 1,
            ;
        } else if r > hi {
            // the target overshoots the ceiling: every branch clamps back
            assert(num - c * den >= 1) by (nonlinear_arith)
                requires
                    2 * num >= 2 * r * den - den,
                    r >= c + 1,
                    den >= 1,
            ;
        } else {
            assert(c * den - num >= 1) by (nonlinear_arith)
                requires
                    2 * num < 2 * r * den + den,
                    r <= c - 1,
                    den >= 1,
            ;
        }
    }
}

/// The settled level, once reached, is kept by every further tick.
proof fn lemma_iterate_fixpoint(num: int, den: int, cap: int, lo: int, hi: int, m: nat)
    requires
        den >= 1,
        cap >= 1,
        num >= 0,
        lo <= hi,
    ensures
        iterate_rate_limit(settled_level(num, den, lo, hi), num, den, cap, lo, hi, m)
            == settled_level(num, den, lo, hi),
    decreases m,
{
    let t = settled_level(num, den, lo, hi);
    lemma_rate_limit_step_toward(t, num, den, cap, lo, hi);
    if m > 0 {
        lemma_iterate_fixpoint(num, den, cap, lo, hi, (m - 1) as nat);
    }
}

/// Convergence of the rate limiter: toward any fixed target — the
/// interpolated fractional ones included — with no dead-band, the level
/// reaches the settled level (the target rounded to the nearest integer
/// and clamped into the band) after exactly the ticks needed to cover
/// the distance in capped steps, not one tick earlier, and returns it
/// ever after.
pub proof fn lemma_step_convergence(c: int, num: int, den: int, cap: int, lo: int, hi: int, n: nat)
    requires
        den >= 1,
        cap >= 1,
        num >= 0,
        lo <= c <= hi,
        n == ticks_to_converge(c, settled_level(num, den, lo, hi), cap),
    ensures
        forall|m: nat|
            m < n ==> iterate_rate_limit(c, num, den, cap, lo, hi, m) != settled_level(
                num,
                den,
                lo,
                hi,
            ),
        forall|m: nat|
            m >= n ==> iterate_rate_limit(c, num, den, cap, lo, hi, m) == settled_level(
                num,
                den,
                lo,
                hi,
            ),
    decreases n,
{
    let t = settled_level(num, den, lo, hi);
    let d = if t >= c {
        t - c
    } else {
        c - t
    };
    lemma_rate_limit_step_toward(c, num, den, cap, lo, hi);
    if d == 0 {
        lemma_fundamental_div_mod_converse(d + cap - 1, cap, 0, cap - 1);
        assert(n == 0);
        assert forall|m: nat| m >= n implies iterate_rate_limit(c, num, den, cap, lo, hi, m)
            == t by {
            lemma_iterate_fixpoint(num, den, cap, lo, hi, m);
        }
    } else {
        let c1 = rate_limit(c, num, den, 0, cap, lo, hi);
        if d > cap {
            // one full step of `cap` toward the settled level
            assert(c1 == if t >= c {
                c + cap
            } else {
                c - cap
            });
            let d1 = d - cap;
            // one tick shaves exactly one off the remaining tick count
            let q0 = (d1 + cap - 1) / cap;
            let r0 = (d1 + cap - 1) % cap;
            vstd::arithmetic::div_mod::lemma_fundamental_div_mod(d1 + cap - 1, cap);
            vstd::arithmetic::div_mod::lemma_mod_division_less_than_divisor(d1 + cap - 1, cap);
            vstd::arithmetic::div_mod::lemma_div_pos_is_pos(d1 + cap - 1, cap);
            assert(d + cap - 1 == (q0 + 1) * cap + r0) by (nonlinear_arith)
                requires
                    d == d1 + cap,
                    d1 + cap - 1 == cap * q0 + r0,
            ;
            lemma_fundamental_div_mod_converse(d + cap - 1, cap, q0 + 1, r0);
            assert(ticks_to_converge(c1, t, cap) == n - 1);
            lemma_step_convergence(c1, num, den, cap, lo, hi, (n - 1) as nat);
            assert forall|m: nat| m < n implies iterate_rate_limit(c, num, den, cap, lo, hi, m)
                != t by {
                if m > 0 {
                    assert(iterate_rate_limit(c, num, den, cap, lo, hi, m) == iterate_rate_limit(
                        c1,
                        num,
                        den,
                        cap,
                        lo,
                        hi,
                        (m - 1) as nat,
                    ));
                }
            }
            assert forall|m: nat| m >= n implies iterate_rate_limit(c, num, den, cap, lo, hi, m)
                == t by {
                assert(iterate_rate_limit(c, num, den, cap, lo, hi, m) == iterate_rate_limit(
                    c1,
                    num,
                    den,
                    cap,
                    lo,
                    hi,
                    (m - 1) as nat,
                ));
            }
        } else {
            // the settled level is within one step: the tick lands on it
            assert(c1 == t);
            lemma_fundamental_div_mod_converse(d + cap - 1, cap, 1, d - 1);
            assert(n == 1);
            assert forall|m: nat| m >= n implies iterate_rate_limit(c, num, den, cap, lo, hi, m)
                == t by {
                assert(iterate_rate_limit(c, num, den, cap, lo, hi, m) == iterate_rate_limit(
                    t,
                    num,
                    den,
                    cap,
                    lo,
                    hi,
                    (m - 1) as nat,
                ));
                lemma_iterate_fixpoint(num, den, cap, lo, hi, (m - 1) as nat);
            }
        }
    }
}

} // verus!

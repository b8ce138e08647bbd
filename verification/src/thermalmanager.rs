//! The thermal manager: a bounded sample window, a weighted moving
//! average, curve-based target selection with hysteresis, an optional
//! rate limiter, and dwell-time gating of actuation.

use std::collections::VecDeque;
use std::ops::Index;
use vstd::prelude::*;

use crate::config::Config;
use crate::config::VALUE_LIMIT;
use vstd::arithmetic::div_mod::lemma_div_is_ordered;
use vstd::arithmetic::div_mod::lemma_fundamental_div_mod_converse;

verus! {

/// Clamps an externally observed reading into the range the control
/// arithmetic is proven safe for.
pub open spec fn clamp_reading(x: u64) -> u64 {
    if x > VALUE_LIMIT {
        VALUE_LIMIT
    } else {
        x
    }
}

/// A value forced into `[lo, hi]`.
pub open spec fn clamp_spec(x: int, lo: int, hi: int) -> int {
    if x < lo {
        lo
    } else if x > hi {
        hi
    } else {
        x
    }
}

fn clamp_u64(x: u64, lo: u64, hi: u64) -> (r: u64)
    requires
        lo <= hi,
    ensures
        r == clamp_spec(x as int, lo as int, hi as int),
{
    if x < lo {
        lo
    } else if x > hi {
        hi
    } else {
        x
    }
}

/// The weighted sum of the first `n` samples, the sample at position `k`
/// (counted from the oldest) weighted by `window - k`: with a full window
/// the newest sample carries the smallest weight `window - n + 1` and the
/// oldest the full window size.
pub open spec fn weighted_sum(s: Seq<u64>, window: int, n: int) -> int
    decreases n,
{
    if n <= 0 {
        0
    } else {
        weighted_sum(s, window, n - 1) + (window - (n - 1)) * s[n - 1]
    }
}

/// The sum of the first `n` weights `window, window - 1, ...`.
pub open spec fn weight_total(window: int, n: int) -> int
    decreases n,
{
    if n <= 0 {
        0
    } else {
        weight_total(window, n - 1) + (window - (n - 1))
    }
}

/// The weighted moving average of a window: the weighted sum over the sum
/// of the weights, truncated to the integer unit.
pub open spec fn wma_spec(s: Seq<u64>, window: int) -> int {
    weighted_sum(s, window, s.len() as int) / weight_total(window, s.len() as int)
}

proof fn lemma_weight_total_bounds(window: int, n: int)
    requires
        0 <= n <= window,
    ensures
        n <= weight_total(window, n) <= n * window,
    decreases n,
{
    if n > 0 {
        lemma_weight_total_bounds(window, n - 1);
        assert((n - 1) * window + window == n * window) by (nonlinear_arith);
    }
}

/// The weighted sum never exceeds the largest admissible sample times
/// the total weight, so the weighted average stays in range.
proof fn lemma_weighted_sum_vs_total(s: Seq<u64>, window: int, n: int)
    requires
        0 <= n <= s.len(),
        s.len() <= window,
        forall|i: int| 0 <= i < s.len() ==> s[i] <= VALUE_LIMIT,
    ensures
        weighted_sum(s, window, n) <= (VALUE_LIMIT as int) * weight_total(window, n),
    decreases n,
{
    if n > 0 {
        lemma_weighted_sum_vs_total(s, window, n - 1);
        assert((window - (n - 1)) * s[n - 1] <= (VALUE_LIMIT as int) * (window - (n - 1)))
            by (nonlinear_arith)
            requires
                1 <= window - (n - 1),
                0 <= s[n - 1] <= VALUE_LIMIT,
        ;
        assert((VALUE_LIMIT as int) * weight_total(window, n - 1) + (VALUE_LIMIT as int) * (window
            - (n - 1)) == (VALUE_LIMIT as int) * weight_total(window, n)) by (nonlinear_arith)
            requires
                weight_total(window, n) == weight_total(window, n - 1) + (window - (n - 1)),
        ;
    }
}

proof fn lemma_weighted_sum_bounds(s: Seq<u64>, window: int, n: int)
    requires
        0 <= n <= s.len(),
        s.len() <= window,
        forall|i: int| 0 <= i < s.len() ==> s[i] <= VALUE_LIMIT,
    ensures
        0 <= weighted_sum(s, window, n) <= n * window * (VALUE_LIMIT as int),
    decreases n,
{
    if n > 0 {
        lemma_weighted_sum_bounds(s, window, n - 1);
        assert(0 <= (window - (n - 1)) * s[n - 1] <= window * (VALUE_LIMIT as int))
            by (nonlinear_arith)
            requires
                1 <= window - (n - 1) <= window,
                0 <= s[n - 1] <= VALUE_LIMIT,
        ;
        assert((n - 1) * window * (VALUE_LIMIT as int) + window * (VALUE_LIMIT as int) == n
            * window * (VALUE_LIMIT as int)) by (nonlinear_arith);
    }
}

/// The curve as (threshold, level) pairs: entries of the two arrays zipped
/// by index, stopping at the shorter one.
pub open spec fn zip_spec(a: Seq<u64>, b: Seq<u64>) -> Seq<(u64, u64)> {
    Seq::new(
        if a.len() <= b.len() {
            a.len()
        } else {
            b.len()
        },
        |i: int| (a[i], b[i]),
    )
}

/// Curve selection before clamping: scanning the pairs from the last one
/// backwards, the level of the first pair whose threshold plus the
/// hysteresis margin is reached, or the fallback when none is.
pub open spec fn select_raw(pairs: Seq<(u64, u64)>, temp: int, hysteresis: int, fallback: int) -> int
    decreases pairs.len(),
{
    if pairs.len() == 0 {
        fallback
    } else if temp >= pairs.last().0 + hysteresis {
        pairs.last().1 as int
    } else {
        select_raw(pairs.drop_last(), temp, hysteresis, fallback)
    }
}

/// A well-formed curve as the smoothing logic needs it: thresholds
/// strictly ascending, levels non-decreasing, both bounded so that the
/// interpolation products stay inside `u64`.
pub open spec fn curve_wf(pairs: Seq<(u64, u64)>) -> bool {
    &&& forall|i: int, j: int| 0 <= i < j < pairs.len() ==> pairs[i].0 < pairs[j].0
    &&& forall|i: int, j: int| 0 <= i < j < pairs.len() ==> pairs[i].1 <= pairs[j].1
    &&& forall|i: int|
        0 <= i < pairs.len() ==> pairs[i].0 <= VALUE_LIMIT && pairs[i].1 <= VALUE_LIMIT
}

/// The lower neighbour kept by a forward scan of the curve: among the
/// pairs whose threshold is at or below the temperature, the first one
/// carrying the greatest threshold.
pub open spec fn scan_lower(pairs: Seq<(u64, u64)>, temp: int) -> Option<(u64, u64)>
    decreases pairs.len(),
{
    if pairs.len() == 0 {
        None
    } else {
        let prev = scan_lower(pairs.drop_last(), temp);
        let p = pairs.last();
        if p.0 <= temp {
            match prev {
                Some(q) => if p.0 > q.0 {
                    Some(p)
                } else {
                    Some(q)
                },
                None => Some(p),
            }
        } else {
            prev
        }
    }
}

/// The upper neighbour kept by a forward scan of the curve: among the
/// pairs whose threshold is above the temperature, the first one carrying
/// the smallest threshold.
pub open spec fn scan_upper(pairs: Seq<(u64, u64)>, temp: int) -> Option<(u64, u64)>
    decreases pairs.len(),
{
    if pairs.len() == 0 {
        None
    } else {
        let prev = scan_upper(pairs.drop_last(), temp);
        let p = pairs.last();
        if p.0 > temp {
            match prev {
                Some(q) => if p.0 < q.0 {
                    Some(p)
                } else {
                    Some(q)
                },
                None => Some(p),
            }
        } else {
            prev
        }
    }
}

/// The pair of curve neighbours bracketing a temperature.  When only one
/// side exists it is returned alone; when only an upper neighbour exists
/// it stands in the first slot, as the scanning tick treats the nearest
/// entry's level as the plain (non-interpolated) target.
pub open spec fn window_spec(pairs: Seq<(u64, u64)>, temp: int) -> Option<
    ((u64, u64), Option<(u64, u64)>),
> {
    match (scan_lower(pairs, temp), scan_upper(pairs, temp)) {
        (Some(l), Some(u)) => Some((l, Some(u))),
        (Some(l), None) => Some((l, None)),
        (None, Some(u)) => Some((u, None)),
        (None, None) => None,
    }
}

/// What the lower-neighbour scan returns: an element of the curve whose
/// threshold is at or below the temperature and maximal among those, or
/// nothing when every threshold lies above the temperature.
proof fn lemma_scan_lower_props(pairs: Seq<(u64, u64)>, temp: int)
    ensures
        match scan_lower(pairs, temp) {
            Some(l) => {
                &&& l.0 <= temp
                &&& exists|k: int| 0 <= k < pairs.len() && pairs[k] == l
                &&& forall|k: int|
                    0 <= k < pairs.len() && (#[trigger] pairs[k]).0 <= temp ==> pairs[k].0 <= l.0
            },
            None => forall|k: int| 0 <= k < pairs.len() ==> (#[trigger] pairs[k]).0 > temp,
        },
    decreases pairs.len(),
{
    if pairs.len() > 0 {
        lemma_scan_lower_props(pairs.drop_last(), temp);
        let sub = pairs.drop_last();
        assert(forall|k: int| 0 <= k < sub.len() ==> sub[k] == pairs[k]);
        match scan_lower(sub, temp) {
            Some(q) => {
                let k = choose|k: int| 0 <= k < sub.len() && sub[k] == q;
                assert(pairs[k] == q);
            },
            None => {},
        }
        assert(pairs[pairs.len() - 1] == pairs.last());
    }
}

/// What the upper-neighbour scan returns: an element of the curve whose
/// threshold is above the temperature and minimal among those, or nothing
/// when every threshold lies at or below the temperature.
proof fn lemma_scan_upper_props(pairs: Seq<(u64, u64)>, temp: int)
    ensures
        match scan_upper(pairs, temp) {
            Some(u) => {
                &&& u.0 > temp
                &&& exists|k: int| 0 <= k < pairs.len() && pairs[k] == u
                &&& forall|k: int|
                    0 <= k < pairs.len() && (#[trigger] pairs[k]).0 > temp ==> pairs[k].0 >= u.0
            },
            None => forall|k: int| 0 <= k < pairs.len() ==> (#[trigger] pairs[k]).0 <= temp,
        },
    decreases pairs.len(),
{
    if pairs.len() > 0 {
        lemma_scan_upper_props(pairs.drop_last(), temp);
        let sub = pairs.drop_last();
        assert(forall|k: int| 0 <= k < sub.len() ==> sub[k] == pairs[k]);
        match scan_upper(sub, temp) {
            Some(q) => {
                let k = choose|k: int| 0 <= k < sub.len() && sub[k] == q;
                assert(pairs[k] == q);
            },
            None => {},
        }
        assert(pairs[pairs.len() - 1] == pairs.last());
    }
}

/// On a well-formed curve, the bracketing neighbours straddle the
/// temperature, carry levels in curve order, and stay inside the bounds
/// the interpolation arithmetic needs.
pub proof fn lemma_window_sorted(pairs: Seq<(u64, u64)>, temp: int)
    requires
        curve_wf(pairs),
    ensures
        match window_spec(pairs, temp) {
            Some((l, up)) => {
                &&& l.0 <= VALUE_LIMIT && l.1 <= VALUE_LIMIT
                &&& match up {
                    Some(u) => {
                        &&& l.0 <= temp < u.0
                        &&& l.1 <= u.1
                        &&& u.0 <= VALUE_LIMIT && u.1 <= VALUE_LIMIT
                    },
                    None => true,
                }
            },
            None => true,
        },
{
    lemma_scan_lower_props(pairs, temp);
    lemma_scan_upper_props(pairs, temp);
    match (scan_lower(pairs, temp), scan_upper(pairs, temp)) {
        (Some(l), Some(u)) => {
            let li = choose|k: int| 0 <= k < pairs.len() && pairs[k] == l;
            let ui = choose|k: int| 0 <= k < pairs.len() && pairs[k] == u;
            assert(l.0 <= temp < u.0);
            if li > ui {
                assert(pairs[ui].0 < pairs[li].0);
                assert(false);
            }
            assert(li < ui);
            assert(pairs[li].1 <= pairs[ui].1);
        },
        _ => {},
    }
}

/// The nearest integer (half away from zero) to the non-negative
/// fraction `num / den`.
pub open spec fn round_div(num: int, den: int) -> int {
    (2 * num + den) / (2 * den)
}

/// One rate-limiter step from level `c` toward a target level given as
/// the exact fraction `num / den`: no movement while the change sits
/// inside the hysteresis dead-band, a move of exactly `cap` when the
/// target is further than that, the rounded target itself when it is
/// within reach, and the result always clamped into `[lo, hi]`.
pub open spec fn rate_limit(c: int, num: int, den: int, hys: int, cap: int, lo: int, hi: int) -> int {
    let scaled = c * den;
    if num >= scaled {
        let delta = num - scaled;
        if delta <= hys * den {
            clamp_spec(c, lo, hi)
        } else if delta > cap * den {
            clamp_spec(c + cap, lo, hi)
        } else {
            clamp_spec(round_div(num, den), lo, hi)
        }
    } else {
        let delta = scaled - num;
        if delta <= hys * den {
            clamp_spec(c, lo, hi)
        } else if delta > cap * den {
            clamp_spec(c - cap, lo, hi)
        } else {
            clamp_spec(round_div(num, den), lo, hi)
        }
    }
}

/// The smoothed command for one tick: the target is interpolated linearly
/// between the curve neighbours bracketing the temperature (the single
/// neighbour's level when only one side exists, the floor when the curve
/// is empty), and the move toward it is rate-limited.
pub open spec fn smooth_spec(
    pairs: Seq<(u64, u64)>,
    temp: int,
    c: int,
    hys: int,
    cap: int,
    lo: int,
    hi: int,
) -> int {
    match window_spec(pairs, temp) {
        Some((l, up)) => match up {
            Some(u) => {
                let den = u.0 - l.0;
                let num = l.1 * den + (temp - l.0) * (u.1 - l.1);
                rate_limit(c, num, den, hys, cap, lo, hi)
            },
            None => rate_limit(c, l.1 as int, 1, hys, cap, lo, hi),
        },
        None => lo,
    }
}

/// The target the controller commands for a given state, computed from
/// the smoothed temperature estimate: the rate-limited interpolated level
/// when smoothing is enabled, otherwise the selected curve level, clamped
/// into `[floor, ceiling]` either way.
pub open spec fn target_spec(m: ThermalManager) -> int {
    let pairs = zip_spec(m.config.temp_thresholds@, m.config.fan_speeds@);
    if m.config.smooth_mode {
        smooth_spec(
            pairs,
            m.temp_average as int,
            m.current_fan_speed as int,
            m.config.hysteresis as int,
            m.config.smooth_mode_max_fan_step as int,
            m.config.fan_speed_floor as int,
            m.config.fan_speed_ceiling as int,
        )
    } else {
        clamp_spec(
            select_raw(
                pairs,
                m.temp_average as int,
                m.config.hysteresis as int,
                m.config.fan_speed_floor as int,
            ),
            m.config.fan_speed_floor as int,
            m.config.fan_speed_ceiling as int,
        )
    }
}

/// A well-formed configuration zips into a well-formed curve.
pub proof fn lemma_config_curve_wf(c: Config)
    requires
        c.wf(),
    ensures
        curve_wf(zip_spec(c.temp_thresholds@, c.fan_speeds@)),
{
    let pairs = zip_spec(c.temp_thresholds@, c.fan_speeds@);
    assert(forall|i: int| 0 <= i < pairs.len() ==> pairs[i] == (c.temp_thresholds@[i], c.fan_speeds@[i]));
}

/// Time elapsed between two host timestamps, zero when the clock appears
/// to have moved backwards.
pub open spec fn elapsed_since(now: int, then: int) -> int {
    if now >= then {
        now - then
    } else {
        0
    }
}

/// Whether an actuation is still inside the configured dwell interval, so
/// that a new command must be suppressed this tick.
pub open spec fn dwell_active(m: ThermalManager, now: int) -> bool {
    match m.last_adjustment_time {
        Some(then) => elapsed_since(now, then as int) < m.config.fan_dwell_time,
        None => false,
    }
}

/// Per-device controller state.  `samples` is the bounded FIFO of recent
/// temperature readings; timestamps are host-supplied tick counts in the
/// same unit as the configured dwell interval.
pub struct ThermalManager {
    pub gpu_id: u8,
    pub samples: VecDeque<u64>,
    pub config: Config,
    pub temp_average: u64,
    pub current_temp: u64,
    pub last_adjustment_time: Option<u64>,
    pub last_temp_time: Option<u64>,
    pub current_fan_speed: u64,
    pub target_fan_speed: u64,
}

impl ThermalManager {
    /// Well-formedness: a valid configuration, a window that never holds
    /// more than the configured capacity, and readings and estimate
    /// inside the clamped range.
    pub open spec fn wf(self) -> bool {
        &&& self.config.wf()
        &&& self.samples@.len() <= self.config.sampling_window_size
        &&& forall|i: int| 0 <= i < self.samples@.len() ==> self.samples@[i] <= VALUE_LIMIT
        &&& self.current_temp <= VALUE_LIMIT
        &&& self.temp_average <= VALUE_LIMIT
        &&& self.current_fan_speed <= VALUE_LIMIT
    }

    /// A fresh controller: empty window, zeroed readings, target at the
    /// configured floor, no actuation recorded yet.
    pub fn new(config: Config) -> (m: ThermalManager)
        requires
            config.wf(),
        ensures
            m.gpu_id == 0,
            m.samples@ == Seq::<u64>::empty(),
            m.config == config,
            m.temp_average == 0,
            m.current_temp == 0,
            m.last_adjustment_time is None,
            m.last_temp_time is None,
            m.current_fan_speed == 0,
            m.target_fan_speed == config.fan_speed_floor,
            m.wf(),
    {
        let window_size = config.sampling_window_size;
        let floor = config.fan_speed_floor;
        ThermalManager {
            gpu_id: 0,
            samples: VecDeque::with_capacity(window_size),
            config,
            temp_average: 0,
            current_temp: 0,
            last_adjustment_time: None,
            last_temp_time: None,
            current_fan_speed: 0,
            target_fan_speed: floor,
        }
    }

    /// One sampling step: records the injected sensor and actuator
    /// readings (clamped defensively), appends the temperature to the
    /// window evicting the oldest entry once the window is full, and
    /// recomputes the smoothed estimate.  Until the window reaches full
    /// capacity the estimate is the latest raw sample itself, favouring
    /// responsiveness during warm-up; afterwards it is the weighted
    /// moving average.
    pub fn update_temperature(&mut self, raw_temp: u64, raw_fan_speed: u64, now: u64)
        requires
            old(self).wf(),
        ensures
            final(self).wf(),
            final(self).current_temp == clamp_reading(raw_temp),
            final(self).current_fan_speed == clamp_reading(raw_fan_speed),
            final(self).last_temp_time == Some(now),
            final(self).samples@ == push_evict(
                old(self).samples@,
                clamp_reading(raw_temp),
                old(self).config.sampling_window_size as int,
            ),
            final(self).samples@.len() < old(self).config.sampling_window_size
                ==> final(self).temp_average == final(self).current_temp,
            final(self).samples@.len() >= old(self).config.sampling_window_size
                ==> final(self).temp_average == wma_spec(
                    final(self).samples@,
                    old(self).config.sampling_window_size as int,
                ),
            final(self).config == old(self).config,
            final(self).gpu_id == old(self).gpu_id,
            final(self).last_adjustment_time == old(self).last_adjustment_time,
            final(self).target_fan_speed == old(self).target_fan_speed,
    {
        let temp = if raw_temp > VALUE_LIMIT {
            VALUE_LIMIT
        } else {
            raw_temp
        };
        let fan = if raw_fan_speed > VALUE_LIMIT {
            VALUE_LIMIT
        } else {
            raw_fan_speed
        };
        self.current_temp = temp;
        self.last_temp_time = Some(now);
        self.current_fan_speed = fan;
        self.samples.push_back(temp);
        if self.samples.len() > self.config.sampling_window_size {
            self.samples.pop_front();
        }
        if self.samples.len() < self.config.sampling_window_size {
            self.temp_average = temp;
        } else {
            self.temp_average = self.calculate_wma();
        }
    }

    /// The weighted moving average of the sample window, the oldest sample
    /// weighted by the window size and each younger one by one less,
    /// truncated to the integer unit.
    pub fn calculate_wma(&mut self) -> (r: u64)
        requires
            old(self).wf(),
            old(self).samples@.len() >= 1,
        ensures
            *final(self) == *old(self),
            r == wma_spec(old(self).samples@, old(self).config.sampling_window_size as int),
            r <= VALUE_LIMIT,
    {
        let ghost s = self.samples@;
        let ghost w = self.config.sampling_window_size as int;
        let n = self.samples.len();
        let window = self.config.sampling_window_size;
        let mut temp_sum: u64 = 0;
        let mut weight_sum: u64 = 0;
        let mut i: usize = 0;
        while i < n
            invariant
                i <= n,
                n == s.len(),
                s == self.samples@,
                w == window as int,
                n <= window,
                window <= VALUE_LIMIT,
                forall|k: int| 0 <= k < n ==> s[k] <= VALUE_LIMIT,
                temp_sum == weighted_sum(s, w, i as int),
                weight_sum == weight_total(w, i as int),
            decreases n - i,
        {
            proof {
                lemma_weighted_sum_bounds(s, w, i as int);
                lemma_weight_total_bounds(w, i as int);
                assert(weighted_sum(s, w, i as int) + (w - i) * s[i as int] <= (i + 1) * w * (
                VALUE_LIMIT as int)) by (nonlinear_arith)
                    requires
                        weighted_sum(s, w, i as int) <= i * w * (VALUE_LIMIT as int),
                        1 <= w - i <= w,
                        0 <= s[i as int] <= VALUE_LIMIT,
                        0 <= i,
                ;
                assert((i + 1) * w * (VALUE_LIMIT as int) <= VALUE_LIMIT * VALUE_LIMIT * (
                VALUE_LIMIT as int)) by (nonlinear_arith)
                    requires
                        0 <= i + 1 <= VALUE_LIMIT,
                        0 < w <= VALUE_LIMIT,
                ;
                assert(weight_total(w, i as int) + (w - i) <= (i + 1) * w) by (nonlinear_arith)
                    requires
                        weight_total(w, i as int) <= i * w,
                        1 <= w - i <= w,
                        0 <= i,
                ;
                assert((i + 1) * w <= VALUE_LIMIT * (VALUE_LIMIT as int)) by (nonlinear_arith)
                    requires
                        0 <= i + 1 <= VALUE_LIMIT,
                        0 < w <= VALUE_LIMIT,
                ;
            }
            let weight = (window - i) as u64;
            let sample = *self.samples.index(i);
            temp_sum = temp_sum + weight * sample;
            weight_sum = weight_sum + weight;
            i = i + 1;
        }
        proof {
            lemma_weight_total_bounds(w, n as int);
            lemma_weighted_sum_vs_total(s, w, n as int);
            // the average of samples bounded by the limit is itself bounded
            lemma_fundamental_div_mod_converse(
                (VALUE_LIMIT as int) * weight_sum as int,
                weight_sum as int,
                VALUE_LIMIT as int,
                0,
            );
            lemma_div_is_ordered(
                temp_sum as int,
                (VALUE_LIMIT as int) * weight_sum as int,
                weight_sum as int,
            );
        }
        temp_sum / weight_sum
    }

    /// The configured curve as (threshold, level) pairs of equal index.
    pub fn generate_thresholds_and_speeds(&mut self) -> (r: Vec<(u64, u64)>)
        ensures
            *final(self) == *old(self),
            r@ == zip_spec(old(self).config.temp_thresholds@, old(self).config.fan_speeds@),
    {
        let ghost a = self.config.temp_thresholds@;
        let ghost b = self.config.fan_speeds@;
        let n = if self.config.temp_thresholds.len() <= self.config.fan_speeds.len() {
            self.config.temp_thresholds.len()
        } else {
            self.config.fan_speeds.len()
        };
        let mut pairs: Vec<(u64, u64)> = Vec::new();
        let mut i: usize = 0;
        while i < n
            invariant
                i <= n,
                a == self.config.temp_thresholds@,
                b == self.config.fan_speeds@,
                n == if a.len() <= b.len() {
                    a.len()
                } else {
                    b.len()
                },
                pairs@.len() == i,
                forall|k: int| 0 <= k < i ==> pairs@[k] == (a[k], b[k]),
            decreases n - i,
        {
            let t = self.config.temp_thresholds[i];
            let v = self.config.fan_speeds[i];
            pairs.push((t, v));
            i = i + 1;
        }
        proof {
            assert(pairs@ =~= zip_spec(a, b));
        }
        pairs
    }

    /// Curve-based target selection: scanning the given pairs from the
    /// highest-index entry down, the level of the first pair whose
    /// threshold the smoothed temperature estimate reaches by at least
    /// the hysteresis margin; the configured floor when no pair
    /// qualifies.  The result is always clamped into `[floor, ceiling]`.
    pub fn select_nearest_fan_speed(&mut self, thresholds: Vec<(u64, u64)>) -> (r: u64)
        requires
            old(self).config.fan_speed_floor <= old(self).config.fan_speed_ceiling,
        ensures
            *final(self) == *old(self),
            r == clamp_spec(
                select_raw(
                    thresholds@,
                    old(self).temp_average as int,
                    old(self).config.hysteresis as int,
                    old(self).config.fan_speed_floor as int,
                ),
                old(self).config.fan_speed_floor as int,
                old(self).config.fan_speed_ceiling as int,
            ),
            old(self).config.fan_speed_floor <= r <= old(self).config.fan_speed_ceiling,
    {
        let ghost pairs = thresholds@;
        let temp = self.temp_average;
        let hysteresis = self.config.hysteresis;
        let floor = self.config.fan_speed_floor;
        let ghost full = select_raw(pairs, temp as int, hysteresis as int, floor as int);
        let mut nearest_speed = floor;
        let mut i: usize = thresholds.len();
        proof {
            assert(pairs.take(pairs.len() as int) =~= pairs);
        }
        while i > 0
            invariant_except_break
                i <= pairs.len(),
                pairs == thresholds@,
                nearest_speed == floor,
                full == select_raw(
                    pairs.take(i as int),
                    temp as int,
                    hysteresis as int,
                    floor as int,
                ),
            ensures
                nearest_speed as int == full,
            decreases i,
        {
            i = i - 1;
            let (thresh, speed) = thresholds[i];
            if temp >= hysteresis && temp - hysteresis >= thresh {
                proof {
                    assert(pairs.take(i as int + 1).last() == pairs[i as int]);
                }
                nearest_speed = speed;
                break ;
            }
            proof {
                assert(pairs.take(i as int + 1).drop_last() =~= pairs.take(i as int));
            }
        }
        clamp_u64(nearest_speed, floor, self.config.fan_speed_ceiling)
    }

    /// The two curve entries bracketing the smoothed temperature
    /// estimate: the nearest threshold at or below it and the nearest
    /// one above it.
    /// With only one side present that entry comes alone (an upper-only
    /// neighbour stands in the first slot); with an empty curve, nothing.
    pub fn get_threshold_window(&self, thresholds: &Vec<(u64, u64)>) -> (r: Option<
        ((u64, u64), Option<(u64, u64)>),
    >)
        ensures
            r == window_spec(thresholds@, self.temp_average as int),
    {
        let estimate = self.temp_average;
        let ghost pairs = thresholds@;
        let mut lower_threshold: Option<(u64, u64)> = None;
        let mut upper_threshold: Option<(u64, u64)> = None;
        let mut i: usize = 0;
        while i < thresholds.len()
            invariant
                i <= pairs.len(),
                pairs == thresholds@,
                estimate == self.temp_average,
                lower_threshold == scan_lower(pairs.take(i as int), estimate as int),
                upper_threshold == scan_upper(pairs.take(i as int), estimate as int),
            decreases pairs.len() - i,
        {
            let (thresh, speed) = thresholds[i];
            proof {
                assert(pairs.take(i as int + 1).drop_last() =~= pairs.take(i as int));
                assert(pairs.take(i as int + 1).last() == pairs[i as int]);
            }
            if thresh <= estimate {
                let replace = match lower_threshold {
                    Some(p) => thresh > p.0,
                    None => true,
                };
                if replace {
                    lower_threshold = Some((thresh, speed));
                }
            } else {
                let replace = match upper_threshold {
                    Some(p) => thresh < p.0,
                    None => true,
                };
                if replace {
                    upper_threshold = Some((thresh, speed));
                }
            }
            i = i + 1;
        }
        proof {
            assert(pairs.take(pairs.len() as int) =~= pairs);
        }
        match (lower_threshold, upper_threshold) {
            (Some(lower), Some(upper)) => Some((lower, Some(upper))),
            (Some(lower), None) => Some((lower, None)),
            (None, Some(upper)) => Some((upper, None)),
            (None, None) => None,
        }
    }

    /// The rate-limited command toward the target interpolated between
    /// the curve neighbours of the smoothed temperature estimate: no
    /// move inside the hysteresis dead-band, at most the configured step
    /// per tick, and a result always clamped into `[floor, ceiling]`.
    pub fn get_smooth_speed(&mut self, thresholds: &Vec<(u64, u64)>) -> (r: u64)
        requires
            old(self).wf(),
            curve_wf(thresholds@),
        ensures
            *final(self) == *old(self),
            r == smooth_spec(
                thresholds@,
                old(self).temp_average as int,
                old(self).current_fan_speed as int,
                old(self).config.hysteresis as int,
                old(self).config.smooth_mode_max_fan_step as int,
                old(self).config.fan_speed_floor as int,
                old(self).config.fan_speed_ceiling as int,
            ),
            old(self).config.fan_speed_floor <= r <= old(self).config.fan_speed_ceiling,
    {
        let window = self.get_threshold_window(thresholds);
        let current_speed = self.current_fan_speed;
        let max_step = self.config.smooth_mode_max_fan_step;
        let hysteresis = self.config.hysteresis;
        let floor = self.config.fan_speed_floor;
        let ceiling = self.config.fan_speed_ceiling;
        proof {
            lemma_window_sorted(thresholds@, self.temp_average as int);
        }
        match window {
            Some((lower, Some(upper))) => {
                let (lower_thresh, lower_speed) = lower;
                let (upper_thresh, upper_speed) = upper;
                let temp_range = upper_thresh - lower_thresh;
                let speed_range = upper_speed - lower_speed;
                let temp_diff = self.temp_average - lower_thresh;
                proof {
                    assert(lower_speed * temp_range <= VALUE_LIMIT * VALUE_LIMIT)
                        by (nonlinear_arith)
                        requires
                            0 <= lower_speed <= VALUE_LIMIT,
                            0 <= temp_range <= VALUE_LIMIT,
                    ;
                    assert(temp_diff * speed_range <= VALUE_LIMIT * VALUE_LIMIT)
                        by (nonlinear_arith)
                        requires
                            0 <= temp_diff <= VALUE_LIMIT,
                            0 <= speed_range <= VALUE_LIMIT,
                    ;
                }
                let num = lower_speed * temp_range + temp_diff * speed_range;
                rate_limit_step(
                    current_speed,
                    num,
                    temp_range,
                    hysteresis,
                    max_step,
                    floor,
                    ceiling,
                )
            },
            Some((lower, None)) => {
                let (_lower_thresh, lower_speed) = lower;
                rate_limit_step(
                    current_speed,
                    lower_speed,
                    1,
                    hysteresis,
                    max_step,
                    floor,
                    ceiling,
                )
            },
            None => floor,
        }
    }

    /// Recomputes and stores the commanded target: the rate-limited
    /// interpolation when smoothing is enabled, the plain curve selection
    /// otherwise.  Either way the result lies in `[floor, ceiling]`.
    pub fn get_target_fan_speed(&mut self) -> (r: u64)
        requires
            old(self).wf(),
        ensures
            final(self).wf(),
            r == final(self).target_fan_speed,
            r == target_spec(*old(self)),
            old(self).config.fan_speed_floor <= r <= old(self).config.fan_speed_ceiling,
            final(self).config == old(self).config,
            final(self).gpu_id == old(self).gpu_id,
            final(self).samples == old(self).samples,
            final(self).temp_average == old(self).temp_average,
            final(self).current_temp == old(self).current_temp,
            final(self).current_fan_speed == old(self).current_fan_speed,
            final(self).last_adjustment_time == old(self).last_adjustment_time,
            final(self).last_temp_time == old(self).last_temp_time,
    {
        let thresholds = self.generate_thresholds_and_speeds();
        proof {
            lemma_config_curve_wf(self.config);
        }
        if self.config.smooth_mode {
            let speed = self.get_smooth_speed(&thresholds);
            self.target_fan_speed = speed;
        } else {
            let speed = self.select_nearest_fan_speed(thresholds);
            self.target_fan_speed = speed;
        }
        self.target_fan_speed
    }

    /// One gating decision: recomputes the target, then decides whether
    /// the host must command the actuator this tick.  The command is
    /// suppressed while the dwell interval since the last actuation has
    /// not elapsed, and when the computed target equals the observed
    /// speed; a suppressed target is not queued, only stored, and is
    /// recomputed fresh next tick.  On `Some(speed)` the host issues the
    /// write and, only if it succeeded, calls `record_actuation`.
    pub fn set_target_fan_speed(&mut self, now: u64) -> (command: Option<u64>)
        requires
            old(self).wf(),
        ensures
            final(self).wf(),
            final(self).target_fan_speed == target_spec(*old(self)),
            command == if dwell_active(*old(self), now as int) || target_spec(*old(self)) == old(
                self,
            ).current_fan_speed as int {
                Option::<u64>::None
            } else {
                Option::<u64>::Some(final(self).target_fan_speed)
            },
            dwell_active(*old(self), now as int) ==> command is None,
            final(self).config == old(self).config,
            final(self).gpu_id == old(self).gpu_id,
            final(self).samples == old(self).samples,
            final(self).temp_average == old(self).temp_average,
            final(self).current_temp == old(self).current_temp,
            final(self).current_fan_speed == old(self).current_fan_speed,
            final(self).last_adjustment_time == old(self).last_adjustment_time,
            final(self).last_temp_time == old(self).last_temp_time,
    {
        self.get_target_fan_speed();
        if self.get_dwell_time(now) {
            return None;  // skip adjustment within the dwell interval
        }
        if self.current_fan_speed != self.target_fan_speed {
            return Some(self.target_fan_speed);
        }
        None
    }

    /// Records a successful actuator write at the given timestamp,
    /// starting the dwell interval.  The host calls this only after the
    /// write succeeded; after a failed write the state is left untouched,
    /// ready to re-attempt on the next tick.
    pub fn record_actuation(&mut self, now: u64)
        ensures
            final(self).last_adjustment_time == Some(now),
            final(self).config == old(self).config,
            final(self).gpu_id == old(self).gpu_id,
            final(self).samples == old(self).samples,
            final(self).temp_average == old(self).temp_average,
            final(self).current_temp == old(self).current_temp,
            final(self).current_fan_speed == old(self).current_fan_speed,
            final(self).target_fan_speed == old(self).target_fan_speed,
            final(self).last_temp_time == old(self).last_temp_time,
            old(self).wf() ==> final(self).wf(),
    {
        self.last_adjustment_time = Some(now);
    }

    /// Whether the configured dwell interval since the last actuation has
    /// not yet elapsed at the given host timestamp.
    fn get_dwell_time(&mut self, now: u64) -> (r: bool)
        ensures
            *final(self) == *old(self),
            r == dwell_active(*old(self), now as int),
    {
        let dwell_time = self.config.fan_dwell_time;
        match self.last_adjustment_time {
            Some(last_adjust) => {
                let from_last_adjust = if now >= last_adjust {
                    now - last_adjust
                } else {
                    0
                };
                from_last_adjust < dwell_time
            },
            None => false,
        }
    }
}

/// One executable rate-limiter step, computed exactly over the scaled
/// integers `num`, `c * den`, `hys * den` and `cap * den`.
fn rate_limit_step(c: u64, num: u64, den: u64, hys: u64, cap: u64, lo: u64, hi: u64) -> (r: u64)
    requires
        1 <= den <= VALUE_LIMIT,
        lo <= hi,
        c <= VALUE_LIMIT,
        hys <= VALUE_LIMIT,
        cap <= VALUE_LIMIT,
        num <= 2 * VALUE_LIMIT * VALUE_LIMIT,
    ensures
        r == rate_limit(
            c as int,
            num as int,
            den as int,
            hys as int,
            cap as int,
            lo as int,
            hi as int,
        ),
{
    proof {
        assert(c * den <= VALUE_LIMIT * VALUE_LIMIT) by (nonlinear_arith)
            requires
                0 <= c <= VALUE_LIMIT,
                0 <= den <= VALUE_LIMIT,
        ;
        assert(hys * den <= VALUE_LIMIT * VALUE_LIMIT) by (nonlinear_arith)
            requires
                0 <= hys <= VALUE_LIMIT,
                0 <= den <= VALUE_LIMIT,
        ;
        assert(cap * den <= VALUE_LIMIT * VALUE_LIMIT) by (nonlinear_arith)
            requires
                0 <= cap <= VALUE_LIMIT,
                0 <= den <= VALUE_LIMIT,
        ;
    }
    let c_den = c * den;
    let hys_den = hys * den;
    let cap_den = cap * den;
    if num >= c_den {
        let delta = num - c_den;
        if delta <= hys_den {
            clamp_u64(c, lo, hi)
        } else if delta > cap_den {
            clamp_u64(c + cap, lo, hi)
        } else {
            clamp_u64((2 * num + den) / (2 * den), lo, hi)
        }
    } else {
        let delta = c_den - num;
        if delta <= hys_den {
            clamp_u64(c, lo, hi)
        } else if delta > cap_den {
            clamp_u64(
                if c >= cap {
                    c - cap
                } else {
                    0
                },
                lo,
                hi,
            )
        } else {
            clamp_u64((2 * num + den) / (2 * den), lo, hi)
        }
    }
}

/// The sample window after one reading arrives: the reading appended, and
/// the oldest entry evicted when the window would exceed its capacity.
pub open spec fn push_evict(s: Seq<u64>, value: u64, window: int) -> Seq<u64> {
    let pushed = s.push(value);
    if pushed.len() > window {
        pushed.subrange(1, pushed.len() as int)
    } else {
        pushed
    }
}

} // verus!

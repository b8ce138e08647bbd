//! Controller configuration: the curve, band limits, window size, and
//! dwell interval consumed by the thermal manager.

use vstd::prelude::*;

verus! {

/// Upper bound on every configured temperature, level, hysteresis band,
/// step size, and window size.  Keeping each quantity at or below this
/// limit keeps every intermediate product of the control arithmetic
/// (weighted sums, interpolation numerators) inside `u64`.
pub const VALUE_LIMIT: u64 = 1_000_000;

/// Errors raised while loading or validating a configuration.  The file
/// and environment failures carry the diagnostic text of the underlying
/// error; only `InvalidArrayFormat` is produced by the core itself.
#[derive(Debug, Clone, PartialEq, Eq)]
pub enum ConfigError {
    Io(String),
    Toml(String),
    MissingHomeDir,
    MissingConfigFile,
    InvalidDirectory,
    InvalidArrayFormat,
}

/// The controller's configuration surface.  `temp_thresholds` and
/// `fan_speeds` form the curve: pairs of equal index belong together.
#[derive(Debug, Clone)]
pub struct Config {
    pub gpu_id: u8,
    pub temp_thresholds: Vec<u64>,
    pub fan_speeds: Vec<u64>,
    pub fan_speed_floor: u64,
    pub fan_speed_ceiling: u64,
    pub hysteresis: u64,
    pub sampling_window_size: usize,
    pub global_delay: u64,
    pub fan_dwell_time: u64,
    pub smooth_mode: bool,
    pub smooth_mode_max_fan_step: u64,
}

impl Config {
    /// Well-formedness: curve arrays of equal length, thresholds strictly
    /// ascending, levels non-decreasing, floor at or below ceiling, a
    /// window of at least one sample, and every quantity small enough
    /// that the control arithmetic cannot overflow.
    pub open spec fn wf(self) -> bool {
        &&& self.temp_thresholds@.len() == self.fan_speeds@.len()
        &&& self.fan_speed_floor <= self.fan_speed_ceiling
        &&& self.fan_speed_ceiling <= VALUE_LIMIT
        &&& self.hysteresis <= VALUE_LIMIT
        &&& self.smooth_mode_max_fan_step <= VALUE_LIMIT
        &&& 1 <= self.sampling_window_size <= VALUE_LIMIT
        &&& forall|i: int|
            0 <= i < self.temp_thresholds@.len() ==> self.temp_thresholds@[i] <= VALUE_LIMIT
        &&& forall|i: int| 0 <= i < self.fan_speeds@.len() ==> self.fan_speeds@[i] <= VALUE_LIMIT
        &&& forall|i: int, j: int|
            0 <= i < j < self.temp_thresholds@.len()
                ==> self.temp_thresholds@[i] < self.temp_thresholds@[j]
        &&& forall|i: int, j: int|
            0 <= i < j < self.fan_speeds@.len() ==> self.fan_speeds@[i] <= self.fan_speeds@[j]
    }

    /// Builds a configuration from already-parsed values, rejecting curve
    /// arrays of mismatched length.  This is the only structural check the
    /// core performs at construction; ordering and range are the loader's
    /// duty and are tested by `is_valid`.
    pub fn new(
        gpu_id: u8,
        temp_thresholds: Vec<u64>,
        fan_speeds: Vec<u64>,
        fan_speed_floor: u64,
        fan_speed_ceiling: u64,
        hysteresis: u64,
        sampling_window_size: usize,
        global_delay: u64,
        fan_dwell_time: u64,
        smooth_mode: bool,
        smooth_mode_max_fan_step: u64,
    ) -> (r: Result<Config, ConfigError>)
        ensures
            match r {
                Ok(c) => {
                    &&& temp_thresholds@.len() == fan_speeds@.len()
                    &&& c == (Config {
                        gpu_id,
                        temp_thresholds,
                        fan_speeds,
                        fan_speed_floor,
                        fan_speed_ceiling,
                        hysteresis,
                        sampling_window_size,
                        global_delay,
                        fan_dwell_time,
                        smooth_mode,
                        smooth_mode_max_fan_step,
                    })
                },
                Err(e) => {
                    &&& temp_thresholds@.len() != fan_speeds@.len()
                    &&& e == ConfigError::InvalidArrayFormat
                },
            },
    {
        if temp_thresholds.len() != fan_speeds.len() {
            return Err(ConfigError::InvalidArrayFormat);
        }
        Ok(Config {
            gpu_id,
            temp_thresholds,
            fan_speeds,
            fan_speed_floor,
            fan_speed_ceiling,
            hysteresis,
            sampling_window_size,
            global_delay,
            fan_dwell_time,
            smooth_mode,
            smooth_mode_max_fan_step,
        })
    }

    /// Decides `wf` at run time, so an unverified host can test a loaded
    /// configuration before handing it to the controller.
    pub fn is_valid(&self) -> (r: bool)
        ensures
            r == self.wf(),
    {
        if self.temp_thresholds.len() != self.fan_speeds.len() {
            return false;
        }
        if self.fan_speed_floor > self.fan_speed_ceiling {
            return false;
        }
        if self.fan_speed_ceiling > VALUE_LIMIT {
            return false;
        }
        if self.hysteresis > VALUE_LIMIT {
            return false;
        }
        if self.smooth_mode_max_fan_step > VALUE_LIMIT {
            return false;
        }
        if self.sampling_window_size < 1 {
            return false;
        }
        if self.sampling_window_size as u64 > VALUE_LIMIT {
            return false;
        }
        let n = self.temp_thresholds.len();
        let mut i: usize = 0;
        while i < n
            invariant
                i <= n,
                n == self.temp_thresholds@.len(),
                n == self.fan_speeds@.len(),
                forall|k: int| 0 <= k < i ==> self.temp_thresholds@[k] <= VALUE_LIMIT,
                forall|k: int| 0 <= k < i ==> self.fan_speeds@[k] <= VALUE_LIMIT,
                forall|k: int|
                    0 <= k && k + 1 < n && k + 1 <= i
                        ==> #[trigger] self.temp_thresholds@[k] < self.temp_thresholds@[k + 1],
                forall|k: int|
                    0 <= k && k + 1 < n && k + 1 <= i
                        ==> #[trigger] self.fan_speeds@[k] <= self.fan_speeds@[k + 1],
            decreases n - i,
        {
            if self.temp_thresholds[i] > VALUE_LIMIT {
                return false;
            }
            if self.fan_speeds[i] > VALUE_LIMIT {
                return false;
            }
            if i + 1 < n {
                if self.temp_thresholds[i] >= self.temp_thresholds[i + 1] {
                    return false;
                }
                if self.fan_speeds[i] > self.fan_speeds[i + 1] {
                    return false;
                }
            }
            i = i + 1;
        }
        proof {
            lemma_strictly_ascending_from_adjacent(self.temp_thresholds@);
            lemma_non_decreasing_from_adjacent(self.fan_speeds@);
        }
        true
    }
}

/// A strict inequality between adjacent elements extends to any two
/// positions, by chaining the adjacent steps.
proof fn lemma_lt_chain(s: Seq<u64>, i: int, j: int)
    requires
        forall|k: int| 0 <= k && k + 1 < s.len() ==> #[trigger] s[k] < s[k + 1],
        0 <= i < j < s.len(),
    ensures
        s[i] < s[j],
    decreases j - i,
{
    if i + 1 < j {
        lemma_lt_chain(s, i + 1, j);
    }
}

/// A non-strict inequality between adjacent elements extends to any two
/// positions, by chaining the adjacent steps.
proof fn lemma_le_chain(s: Seq<u64>, i: int, j: int)
    requires
        forall|k: int| 0 <= k && k + 1 < s.len() ==> #[trigger] s[k] <= s[k + 1],
        0 <= i < j < s.len(),
    ensures
        s[i] <= s[j],
    decreases j - i,
{
    if i + 1 < j {
        lemma_le_chain(s, i + 1, j);
    }
}

/// A sequence whose adjacent elements strictly ascend is strictly
/// ascending between every pair of positions.
pub proof fn lemma_strictly_ascending_from_adjacent(s: Seq<u64>)
    requires
        forall|k: int| 0 <= k && k + 1 < s.len() ==> #[trigger] s[k] < s[k + 1],
    ensures
        forall|i: int, j: int| 0 <= i < j < s.len() ==> s[i] < s[j],
{
    assert forall|i: int, j: int| 0 <= i < j < s.len() implies s[i] < s[j] by {
        lemma_lt_chain(s, i, j);
    }
}

/// A sequence whose adjacent elements never descend is non-decreasing
/// between every pair of positions.
pub proof fn lemma_non_decreasing_from_adjacent(s: Seq<u64>)
    requires
        forall|k: int| 0 <= k && k + 1 < s.len() ==> #[trigger] s[k] <= s[k + 1],
    ensures
        forall|i: int, j: int| 0 <= i < j < s.len() ==> s[i] <= s[j],
{
    assert forall|i: int, j: int| 0 <= i < j < s.len() implies s[i] <= s[j] by {
        lemma_le_chain(s, i, j);
    }
}

impl Default for Config {
    /// The stock configuration: a five-point curve from 48 to 86 degrees,
    /// a hysteresis band of 3, a ten-sample window, smoothing on.
    fn default() -> (c: Config)
        ensures
            c.gpu_id == 0,
            c.temp_thresholds@ == seq![48u64, 58u64, 68u64, 78u64, 86u64],
            c.fan_speeds@ == seq![46u64, 55u64, 62u64, 80u64, 100u64],
            c.fan_speed_floor == 46,
            c.fan_speed_ceiling == 100,
            c.hysteresis == 3,
            c.sampling_window_size == 10,
            c.global_delay == 2,
            c.fan_dwell_time == 10,
            c.smooth_mode,
            c.smooth_mode_max_fan_step == 10,
            c.wf(),
    {
        let temp_thresholds: Vec<u64> = vec![48, 58, 68, 78, 86];
        let fan_speeds: Vec<u64> = vec![46, 55, 62, 80, 100];
        proof {
            assert(temp_thresholds@ =~= seq![48u64, 58u64, 68u64, 78u64, 86u64]);
            assert(fan_speeds@ =~= seq![46u64, 55u64, 62u64, 80u64, 100u64]);
        }
        Config {
            gpu_id: 0,
            temp_thresholds,
            fan_speeds,
            fan_speed_floor: 46,
            fan_speed_ceiling: 100,
            hysteresis: 3,
            sampling_window_size: 10,
            global_delay: 2,
            fan_dwell_time: 10,
            smooth_mode: true,
            smooth_mode_max_fan_step: 10,
        }
    }
}

} // verus!

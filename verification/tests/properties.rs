//! Scenario tests for the documented behaviour of the controller:
//! curve lookup, hysteresis bias, dead-band, step cap, dwell gating,
//! clamping, and warm-up responsiveness.

use veridian_controller::config::Config;
use veridian_controller::thermalmanager::ThermalManager;

/// The documented example curve {(40,46),(50,55),(60,62),(74,80),(82,100)}
/// with no hysteresis, floor 46, ceiling 100, a ten-sample window, a
/// dwell interval of 10, and a step cap of 10.
fn curve_config() -> Config {
    Config::new(
        0,
        vec![40, 50, 60, 74, 82],
        vec![46, 55, 62, 80, 100],
        46,
        100,
        0,
        10,
        2,
        10,
        true,
        10,
    )
    .unwrap()
}

#[test]
fn test_monotonic_curve_lookup() {
    let mut manager = ThermalManager::new(curve_config());
    let thresholds = manager.generate_thresholds_and_speeds();

    let cases: Vec<(u64, u64)> = vec![(35, 46), (45, 46), (55, 55), (70, 62), (90, 100)];
    for (temp, expected) in cases {
        manager.temp_average = temp;
        assert_eq!(
            manager.select_nearest_fan_speed(thresholds.clone()),
            expected
        );
    }
}

#[test]
fn test_hysteresis_rising_edge_bias() {
    let mut config = curve_config();
    config.hysteresis = 3;
    let mut manager = ThermalManager::new(config);
    let thresholds = manager.generate_thresholds_and_speeds();

    // 41 is above the 40 threshold but below 40 + 3: it does not yet
    // qualify for that tier, so the previous tier's level (the floor,
    // 46) is kept rather than 55.
    manager.temp_average = 41;
    assert_eq!(manager.select_nearest_fan_speed(thresholds.clone()), 46);

    // 43 reaches 40 + 3 exactly: the tier is entered (inclusive match).
    manager.temp_average = 43;
    assert_eq!(manager.select_nearest_fan_speed(thresholds), 46);
}

#[test]
fn test_dead_band_idempotence() {
    let mut config = curve_config();
    config.hysteresis = 3;
    config.smooth_mode = true;
    let mut manager = ThermalManager::new(config);

    // At an estimate of 55 degrees the interpolated target is 58.5; with
    // the observed speed 60 the change (-1.5) sits inside the dead-band
    // of 3, so a tick computes the observed speed itself and never
    // commands.
    manager.temp_average = 55;
    manager.current_fan_speed = 60;

    for now in 0..50u64 {
        assert_eq!(manager.set_target_fan_speed(now), None);
        assert_eq!(manager.current_fan_speed, 60);
        assert_eq!(manager.target_fan_speed, 60);
        assert_eq!(manager.last_adjustment_time, None);
    }
}

#[test]
fn test_step_cap_and_convergence() {
    let config = curve_config();
    let mut manager = ThermalManager::new(config);

    // At 94 degrees only a lower neighbour (82, 100) exists, so the
    // target is a fixed 100.  From 50, with a step cap of 10, the level
    // must advance by exactly 10 per tick and reach the target after
    // ceil(50 / 10) = 5 ticks, not earlier.
    let thresholds = manager.generate_thresholds_and_speeds();
    manager.temp_average = 94;
    manager.current_fan_speed = 50;

    let mut ticks = 0u64;
    while manager.current_fan_speed != 100 {
        let before = manager.current_fan_speed;
        let next = manager.get_smooth_speed(&thresholds);
        let change = if next >= before {
            next - before
        } else {
            before - next
        };
        assert!(change <= 10, "step of {} exceeds the cap", change);
        manager.current_fan_speed = next;
        ticks += 1;
        assert!(ticks <= 5, "did not converge within the expected ticks");
    }
    assert_eq!(ticks, 5);
}

#[test]
fn test_convergence_to_fractional_target() {
    let mut manager = ThermalManager::new(curve_config());
    let thresholds = manager.generate_thresholds_and_speeds();

    // An estimate of 55 interpolates to 58.5 between (50, 55) and
    // (60, 62); the level the limiter settles on is its rounding, 59.
    // From 40, with a step cap of 10: one full step, then the rounded
    // target, then it holds.
    manager.temp_average = 55;
    manager.current_fan_speed = 40;
    let first = manager.get_smooth_speed(&thresholds);
    assert_eq!(first, 50);
    manager.current_fan_speed = first;
    let second = manager.get_smooth_speed(&thresholds);
    assert_eq!(second, 59);
    manager.current_fan_speed = second;
    let third = manager.get_smooth_speed(&thresholds);
    assert_eq!(third, 59);
}

#[test]
fn test_dwell_suppression() {
    let mut config = curve_config();
    config.smooth_mode = false;
    let dwell = config.fan_dwell_time;
    let mut manager = ThermalManager::new(config);

    // A divergent target: an estimate of 90 selects 100 while the fan
    // reads 50.
    manager.temp_average = 90;
    manager.current_fan_speed = 50;

    // First command goes through and is recorded at time 100.
    assert_eq!(manager.set_target_fan_speed(100), Some(100));
    manager.record_actuation(100);

    // Still divergent just before the dwell interval elapses: suppressed.
    assert_eq!(manager.set_target_fan_speed(100 + dwell - 1), None);

    // Once the interval has elapsed the command fires again.
    assert_eq!(manager.set_target_fan_speed(100 + dwell), Some(100));
}

#[test]
fn test_clamping() {
    // A curve whose levels lie outside [floor, ceiling] in both
    // directions: every computed level is still clamped into the band.
    let config = Config::new(
        0,
        vec![30, 70],
        vec![10, 500],
        46,
        100,
        0,
        4,
        2,
        10,
        true,
        1000,
    )
    .unwrap();
    let mut manager = ThermalManager::new(config);
    let thresholds = manager.generate_thresholds_and_speeds();

    // Selection clamps a too-small level up to the floor...
    manager.temp_average = 40;
    assert_eq!(manager.select_nearest_fan_speed(thresholds.clone()), 46);
    // ...and a too-large level down to the ceiling.
    manager.temp_average = 80;
    assert_eq!(manager.select_nearest_fan_speed(thresholds.clone()), 100);

    // Smoothing clamps as well, regardless of the interpolation math.
    manager.temp_average = 80; // lower neighbour only, target 500
    manager.current_fan_speed = 95;
    assert_eq!(manager.get_smooth_speed(&thresholds), 100);
    manager.temp_average = 20; // upper neighbour only, target 10
    manager.current_fan_speed = 48;
    assert_eq!(manager.get_smooth_speed(&thresholds), 46);
}

#[test]
fn test_warmup_responsiveness() {
    let config = curve_config(); // window capacity 10
    let mut manager = ThermalManager::new(config);

    // While the window is not yet full, the estimate equals the most
    // recent raw sample exactly, whatever came before.
    manager.update_temperature(50, 0, 1);
    assert_eq!(manager.temp_average, 50);
    manager.update_temperature(80, 0, 2);
    assert_eq!(manager.temp_average, 80);
    manager.update_temperature(60, 0, 3);
    assert_eq!(manager.temp_average, 60);
    assert_eq!(manager.samples.len(), 3);
}

#[test]
fn test_window_eviction_and_wma() {
    let mut config = curve_config();
    config.sampling_window_size = 3;
    let mut manager = ThermalManager::new(config);

    manager.update_temperature(10, 0, 1);
    manager.update_temperature(20, 0, 2);
    manager.update_temperature(30, 0, 3);
    manager.update_temperature(40, 0, 4);

    // capacity 3: the oldest reading (10) was evicted
    assert_eq!(manager.samples, vec![20, 30, 40]);
    // full window: weights 3, 2, 1 on oldest..newest:
    // (3*20 + 2*30 + 1*40) / 6 = 160 / 6 = 26
    assert_eq!(manager.temp_average, 26);
}

#[test]
fn test_reading_clamped() {
    let config = curve_config();
    let mut manager = ThermalManager::new(config);

    // Garbage readings are clamped, never taken at face value.
    manager.update_temperature(5_000_000, 7_000_000, 1);
    assert_eq!(manager.current_temp, 1_000_000);
    assert_eq!(manager.current_fan_speed, 1_000_000);
}

#[test]
fn test_actuation_recorded_only_on_success() {
    let mut config = curve_config();
    config.smooth_mode = false;
    let mut manager = ThermalManager::new(config);

    manager.temp_average = 90;
    manager.current_fan_speed = 50;

    // The decision alone does not start the dwell interval: if the host's
    // write fails, the next tick re-attempts immediately.
    assert_eq!(manager.set_target_fan_speed(100), Some(100));
    assert_eq!(manager.last_adjustment_time, None);
    assert_eq!(manager.set_target_fan_speed(101), Some(100));

    // Only a recorded success starts it.
    manager.record_actuation(101);
    assert_eq!(manager.last_adjustment_time, Some(101));
    assert_eq!(manager.set_target_fan_speed(102), None);
}

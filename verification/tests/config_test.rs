//! Tests of configuration construction and validation.

use veridian_controller::config::Config;
use veridian_controller::config::ConfigError;

#[test]
fn test_default_config() {
    let config = Config::default();
    assert_eq!(config.gpu_id, 0);
    assert_eq!(config.temp_thresholds, vec![48, 58, 68, 78, 86]);
    assert_eq!(config.fan_speeds, vec![46, 55, 62, 80, 100]);
    assert_eq!(config.fan_speed_floor, 46);
    assert_eq!(config.fan_speed_ceiling, 100);
    assert_eq!(config.hysteresis, 3);
    assert_eq!(config.sampling_window_size, 10);
    assert_eq!(config.global_delay, 2);
    assert_eq!(config.fan_dwell_time, 10);
    assert!(config.smooth_mode);
    assert_eq!(config.smooth_mode_max_fan_step, 10);
    assert!(config.is_valid());
}

#[test]
fn test_invalid_array_format() {
    // Curve arrays of mismatched length are rejected at construction.
    let result = Config::new(
        0,
        vec![40, 50, 60],
        vec![46, 55],
        46,
        100,
        3,
        10,
        2,
        10,
        true,
        5,
    );
    assert!(matches!(result, Err(ConfigError::InvalidArrayFormat)));

    // Arrays of equal length are accepted and kept as given.
    let config = Config::new(
        0,
        vec![40, 50, 60],
        vec![46, 55, 62],
        46,
        100,
        3,
        10,
        2,
        10,
        true,
        5,
    )
    .unwrap();
    assert_eq!(config.temp_thresholds, vec![40, 50, 60]);
    assert_eq!(config.fan_speeds, vec![46, 55, 62]);
}

#[test]
fn test_config_validation() {
    let mut config = Config::default();
    assert!(config.is_valid());

    // thresholds must ascend strictly
    config.temp_thresholds = vec![48, 48, 68, 78, 86];
    assert!(!config.is_valid());
    config = Config::default();

    // levels must not descend
    config.fan_speeds = vec![46, 40, 62, 80, 100];
    assert!(!config.is_valid());
    config = Config::default();

    // the floor may not exceed the ceiling
    config.fan_speed_floor = 120;
    assert!(!config.is_valid());
    config = Config::default();

    // a window must hold at least one sample
    config.sampling_window_size = 0;
    assert!(!config.is_valid());
    config = Config::default();

    // out-of-range magnitudes are rejected
    config.temp_thresholds = vec![48, 58, 68, 78, 2_000_000];
    assert!(!config.is_valid());
}

//! A closed-loop temperature-to-fan-speed controller.
//!
//! The controller samples a device temperature once per tick, smooths the
//! signal with a weighted moving average, maps it through a configurable
//! threshold/speed curve (with hysteresis on the rising edge), optionally
//! rate-limits the commanded speed, and gates physical actuation by a
//! minimum dwell interval.  All sensor and actuator I/O is injected by the
//! host as plain values, so the whole control algorithm is verified.

use vstd::prelude::*;

pub mod config;
pub mod laws;
pub mod thermalmanager;

verus! {

/// Command-line options handed to the configuration loader by the host.
pub struct Args {
    /// Path of the config file to load.
    pub file: Option<String>,
}

} // verus!

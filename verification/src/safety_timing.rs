//! Timing constants and small calculations used while servicing the Bridge
//! safety interlock.
//!
//! This module does not supervise hardware or own safety state. The control
//! task samples inputs, applies outputs, and feeds the hardware watchdog.

use vstd::prelude::*;

verus! {

pub const MIN_LEASE_TIMEOUT_MS: u64 = 250;

pub const WATCHDOG_TIMEOUT_MS: u64 = 3_000;

pub const CONTROL_WRITE_TIMEOUT_MS: u64 = 100;

pub const MAX_SAFETY_SERVICE_INTERVAL_MS: u64 = 10;

pub const TACH_MEASUREMENT_MS: u64 = 500;

pub const TACH_SAMPLE_INTERVAL_US: u64 = 100;

/// The safety service interval and the control write timeout both fit well
/// inside the shortest lease, while one tach measurement outlasts a lease and
/// so must service safety at least fifty times on the way.
pub proof fn lemma_service_interval_fits_the_lease()
    ensures
        MAX_SAFETY_SERVICE_INTERVAL_MS < MIN_LEASE_TIMEOUT_MS,
        CONTROL_WRITE_TIMEOUT_MS < MIN_LEASE_TIMEOUT_MS,
        TACH_MEASUREMENT_MS > MIN_LEASE_TIMEOUT_MS,
        TACH_MEASUREMENT_MS / MAX_SAFETY_SERVICE_INTERVAL_MS >= 50,
{
}

/// Whether the safety service is due after `elapsed_us` microseconds.
pub fn safety_service_due(elapsed_us: u64) -> (due: bool)
    ensures
        due == (elapsed_us >= MAX_SAFETY_SERVICE_INTERVAL_MS * 1_000),
{
    elapsed_us >= MAX_SAFETY_SERVICE_INTERVAL_MS * 1_000
}

/// Fan speed in RPM from the tach pulses counted over half a second (two
/// pulses per revolution), or `None` when it does not fit the 16-bit wire field.
pub fn fan_rpm_from_half_second_pulses(pulse_count: u32) -> (rpm: Option<u16>)
    ensures
        pulse_count * 60 <= u16::MAX ==> rpm == Some((pulse_count * 60) as u16),
        pulse_count * 60 > u16::MAX ==> rpm is None,
{
    let rpm = match pulse_count.checked_mul(60) {
        Some(rpm) => rpm,
        None => {
            return None;
        },
    };
    if rpm > u16::MAX as u32 {
        None
    } else {
        Some(rpm as u16)
    }
}

/// Counts the rising edges of the fan tach input over a measurement window.
pub struct TachCounter {
    pulses: u32,
    last_high: bool,
}

impl TachCounter {
    pub closed spec fn pulses(&self) -> u32 {
        self.pulses
    }

    pub closed spec fn last_high(&self) -> bool {
        self.last_high
    }

    /// Start a measurement from the tach level sampled first.
    pub fn new(initial_high: bool) -> (c: Self)
        ensures
            c.pulses() == 0,
            c.last_high() == initial_high,
    {
        Self { pulses: 0, last_high: initial_high }
    }

    /// Take one tach sample; a low-to-high transition is one pulse.
    pub fn sample(&mut self, high: bool)
        requires
            old(self).pulses() < u32::MAX,
        ensures
            final(self).last_high() == high,
            final(self).pulses() == old(self).pulses() + (if high && !old(self).last_high() { 1int } else { 0int }),
    {
        if high && !self.last_high {
            self.pulses += 1;
        }
        self.last_high = high;
    }

    /// The pulses counted so far.
    pub fn pulse_count(&self) -> (n: u32)
        ensures
            n == self.pulses(),
    {
        self.pulses
    }
}

} // verus!

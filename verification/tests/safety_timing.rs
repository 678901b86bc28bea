use bonanza_bridge_fw::safety_timing::{
    fan_rpm_from_half_second_pulses, safety_service_due, TachCounter, CONTROL_WRITE_TIMEOUT_MS,
    MAX_SAFETY_SERVICE_INTERVAL_MS, MIN_LEASE_TIMEOUT_MS, TACH_MEASUREMENT_MS,
};

#[test]
fn safety_service_interval_is_well_inside_the_minimum_lease() {
    assert!(MAX_SAFETY_SERVICE_INTERVAL_MS < MIN_LEASE_TIMEOUT_MS);
    assert!(CONTROL_WRITE_TIMEOUT_MS < MIN_LEASE_TIMEOUT_MS);
    assert!(TACH_MEASUREMENT_MS > MIN_LEASE_TIMEOUT_MS);
    assert!(TACH_MEASUREMENT_MS / MAX_SAFETY_SERVICE_INTERVAL_MS >= 50);
}

#[test]
fn safety_service_deadline_has_an_exact_boundary() {
    assert!(!safety_service_due(9_999));
    assert!(safety_service_due(10_000));
}

#[test]
fn tach_conversion_is_exact_and_rejects_wire_overflow() {
    assert_eq!(fan_rpm_from_half_second_pulses(0), Some(0));
    assert_eq!(fan_rpm_from_half_second_pulses(60), Some(3_600));
    assert_eq!(fan_rpm_from_half_second_pulses(1_092), Some(65_520));
    assert_eq!(fan_rpm_from_half_second_pulses(1_093), None);
    assert_eq!(fan_rpm_from_half_second_pulses(u32::MAX), None);
}

#[test]
fn tach_counter_counts_rising_edges_only() {
    let mut counter = TachCounter::new(true);
    for level in [true, false, true, true, false, false, true, false] {
        counter.sample(level);
    }
    assert_eq!(counter.pulse_count(), 2);

    let mut from_low = TachCounter::new(false);
    from_low.sample(true);
    assert_eq!(from_low.pulse_count(), 1);
}

#[test]
fn service_is_due_long_after_the_deadline() {
    assert!(safety_service_due(u64::MAX));
    assert!(!safety_service_due(0));
}

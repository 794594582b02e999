use proc_harvest::rates::{cpu_centi_percent, mem_centi_percent, rate_per_sec};

#[test]
fn rate_is_delta_over_elapsed() {
    // 500 bytes over one second.
    assert_eq!(rate_per_sec(1000, 1500, 1000), 500);
    // 1000 bytes over half a second: 2000 bytes per second.
    assert_eq!(rate_per_sec(0, 1000, 500), 2000);
    // 100 bytes over four seconds: 25 bytes per second.
    assert_eq!(rate_per_sec(900, 1000, 4000), 25);
}

#[test]
fn rate_with_equal_samples_is_zero() {
    assert_eq!(rate_per_sec(1000, 1000, 1000), 0);
}

#[test]
fn decreasing_counter_resets_to_zero_rate() {
    // Counter went backwards (pid reuse or wraparound): never negative.
    assert_eq!(rate_per_sec(1500, 1000, 1000), 0);
    assert_eq!(cpu_centi_percent(2500, 2000, 1000, 1), 0);
}

#[test]
fn zero_elapsed_time_gives_zero_rate() {
    assert_eq!(rate_per_sec(1000, 9999, 0), 0);
    assert_eq!(cpu_centi_percent(0, 1000, 0, 1), 0);
}

#[test]
fn huge_delta_saturates_instead_of_overflowing() {
    assert_eq!(rate_per_sec(0, u64::MAX, 1), u64::MAX);
}

#[test]
fn cpu_percent_scales_by_core_divisor() {
    // Half a second of CPU time over one second: 50% on one core.
    assert_eq!(cpu_centi_percent(2000, 2500, 1000, 1), 5000);
    // The same delta normalized over four cores: 12.5%.
    assert_eq!(cpu_centi_percent(2000, 2500, 1000, 4), 1250);
}

#[test]
fn cpu_percent_can_exceed_one_hundred() {
    // Two seconds of CPU time in one wall second (two busy cores, counter
    // cumulative across cores, no normalization): 200%.
    assert_eq!(cpu_centi_percent(0, 2000, 1000, 1), 20000);
}

#[test]
fn mem_percent_is_resident_share_of_total() {
    // 100 of 1000 bytes: 10.00%.
    assert_eq!(mem_centi_percent(100, 1000), 1000);
    // 1 of 3 bytes: 33.33%, rounded down.
    assert_eq!(mem_centi_percent(1, 3), 3333);
    assert_eq!(mem_centi_percent(0, 1000), 0);
}

#[test]
fn mem_percent_clamps_at_one_hundred() {
    // Resident bytes above total memory still report at most 100%.
    assert_eq!(mem_centi_percent(2000, 1000), 10000);
    assert_eq!(mem_centi_percent(u64::MAX, 1), 10000);
    assert_eq!(mem_centi_percent(1000, 1000), 10000);
}

use idm_engine::engine::speed::SpeedMeter;

const SEC: u64 = 1_000_000_000;

fn bps(window: Option<(u64, u64)>) -> f64 {
    match window {
        Some((span, bytes)) => bytes as f64 / (span as f64 / 1e9),
        None => 0.0,
    }
}

#[test]
fn test_new_meter_zero() {
    let mut sm = SpeedMeter::new(5 * SEC);
    assert_eq!(bps(sm.speed_window(0)), 0.0);
}

#[test]
fn test_record_and_speed() {
    let mut sm = SpeedMeter::new(5 * SEC);
    let t0 = 10 * SEC;
    sm.record(t0, 1_048_576);
    sm.record(t0 + 100_000_000, 1_048_576);
    let speed = bps(sm.speed_window(t0 + 300_000_000));
    assert!(speed > 500_000.0, "expected >500KB/s, got {}", speed);
}

#[test]
fn span_under_a_tenth_of_a_second_gives_no_speed() {
    let mut sm = SpeedMeter::new(5 * SEC);
    sm.record(SEC, 10);
    sm.record(SEC + 99_999_999, 10);
    assert_eq!(sm.speed_window(SEC + 99_999_999), None);
    sm.record(SEC + 100_000_000, 5);
    assert_eq!(sm.speed_window(SEC + 100_000_000), Some((100_000_000, 15)));
}

#[test]
fn totals_are_cumulative() {
    let mut sm = SpeedMeter::new(5 * SEC);
    assert_eq!(sm.total(), 0);
    sm.record(1, 100);
    sm.record(2, 50);
    assert_eq!(sm.total(), 150);
}

#[test]
fn old_samples_leave_the_window() {
    let mut sm = SpeedMeter::new(5 * SEC);
    sm.record(0, 1000);
    sm.record(SEC, 1000);
    sm.record(2 * SEC, 1000);
    sm.record(10 * SEC, 1000);
    // at 10 s the cutoff is 5 s: the samples at 0 and 1 s go, the one at 2 s
    // stays as the oldest of the last two
    assert_eq!(sm.speed_window(10 * SEC), Some((8 * SEC, 1000)));
    assert_eq!(sm.total(), 4000);
}

#[test]
fn clock_before_window_prunes_nothing() {
    let mut sm = SpeedMeter::new(5 * SEC);
    sm.record(0, 1);
    sm.record(SEC, 1);
    sm.record(2 * SEC, 1);
    assert_eq!(sm.speed_window(3 * SEC), Some((2 * SEC, 2)));
}


#[test]
fn speed_over_a_series_of_records() {
    // records (t, b): (1 s, 10), (1.5 s, 20), (2 s, 30); query at 2.5 s
    let mut sm = SpeedMeter::new(5 * SEC);
    sm.record(SEC, 10);
    sm.record(SEC + SEC / 2, 20);
    sm.record(2 * SEC, 30);
    // span t_3 - t_1 = 1 s, bytes b_2 + b_3 = 50
    assert_eq!(sm.speed_window(2 * SEC + SEC / 2), Some((SEC, 50)));
    assert_eq!(bps(Some((SEC, 50))), 50.0);
}

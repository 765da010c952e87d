use flight_telemetry::aggregate::{mean_rounded, mode_of_numbers, mode_of_texts};
use flight_telemetry::downsample::{bucket_size_ms, bucket_start_ms, downsample};
use flight_telemetry::models::TelemetryRecord;

fn mean(values: Vec<f64>) -> f64 {
    values.iter().sum::<f64>() / values.len() as f64
}

fn record(timestamp_ms: i64) -> TelemetryRecord<f64> {
    TelemetryRecord {
        timestamp_ms,
        latitude: None,
        longitude: None,
        altitude: None,
        height: None,
        vps_height: None,
        speed: None,
        battery_percent: None,
        battery_voltage: None,
        battery_temp: None,
        pitch: None,
        roll: None,
        yaw: None,
        satellites: None,
        flight_mode: None,
        rc_signal: None,
    }
}

#[test]
fn means_round_to_the_nearest_integer() {
    assert_eq!(mean_rounded(&vec![7]), 7);
    assert_eq!(mean_rounded(&vec![1, 1, 2]), 1);
    assert_eq!(mean_rounded(&vec![1, 2, 2]), 2);
    assert_eq!(mean_rounded(&vec![-1, -1, -2]), -1);
    assert_eq!(mean_rounded(&vec![-1, -2, -2]), -2);
    assert_eq!(mean_rounded(&vec![i32::MAX, i32::MAX]), i32::MAX);
    assert_eq!(mean_rounded(&vec![i32::MIN, i32::MIN, i32::MIN]), i32::MIN);
    assert_eq!(mean_rounded(&vec![i32::MIN, i32::MAX]), 0);
}

#[test]
fn means_halfway_round_to_even() {
    assert_eq!(mean_rounded(&vec![1, 2]), 2);
    assert_eq!(mean_rounded(&vec![2, 3]), 2);
    assert_eq!(mean_rounded(&vec![0, 1]), 0);
    assert_eq!(mean_rounded(&vec![-1, -2]), -2);
    assert_eq!(mean_rounded(&vec![-2, -3]), -2);
    assert_eq!(mean_rounded(&vec![-1, 0]), 0);
}

#[test]
fn the_mode_is_the_most_frequent_value() {
    assert_eq!(mode_of_numbers(&vec![5]), 0);
    assert_eq!(mode_of_numbers(&vec![1, 2, 2, 3]), 1);
    assert_eq!(mode_of_numbers(&vec![4, 9, 9, 4, 4]), 0);
    // Of values that are equally frequent the first counts.
    assert_eq!(mode_of_numbers(&vec![8, 3, 3, 8]), 0);
    assert_eq!(mode_of_numbers(&vec![1, 2, 3]), 0);
    let modes = vec!["GPS".to_string(), "Sport".to_string(), "Sport".to_string()];
    assert_eq!(mode_of_texts(&modes), 1);
    let tied = vec!["a".to_string(), "b".to_string()];
    assert_eq!(mode_of_texts(&tied), 0);
}

#[test]
fn bucket_width_is_a_second_at_least() {
    assert_eq!(bucket_size_ms(0, 120_000, 5000), Some(1000));
    assert_eq!(bucket_size_ms(0, 0, 1), Some(1000));
    assert_eq!(bucket_size_ms(0, 5_000_000, 5000), Some(1000));
    assert_eq!(bucket_size_ms(0, 5_005_000, 5000), Some(1001));
    assert_eq!(bucket_size_ms(1000, 101_000, 4), Some(25_000));
    assert_eq!(bucket_size_ms(i64::MIN, i64::MAX, 1), None);
    assert_eq!(bucket_size_ms(i64::MIN, i64::MAX, 2), Some(i64::MAX));
}

#[test]
fn buckets_start_at_multiples_of_the_width() {
    assert_eq!(bucket_start_ms(0, 1000), Some(0));
    assert_eq!(bucket_start_ms(999, 1000), Some(0));
    assert_eq!(bucket_start_ms(1000, 1000), Some(1000));
    assert_eq!(bucket_start_ms(2500, 1000), Some(2000));
    assert_eq!(bucket_start_ms(-1, 1000), Some(-1000));
    assert_eq!(bucket_start_ms(-1000, 1000), Some(-1000));
    assert_eq!(bucket_start_ms(-1001, 1000), Some(-2000));
    assert_eq!(bucket_start_ms(i64::MAX, 1000), Some(9_223_372_036_854_775_000));
    assert_eq!(bucket_start_ms(i64::MIN, 1000), None);
}

#[test]
fn a_bucket_aggregates_each_field_in_its_way() {
    let mut a = record(1000);
    a.altitude = Some(10.0);
    a.battery_percent = Some(80);
    a.satellites = Some(11);
    a.flight_mode = Some("GPS".to_string());
    a.rc_signal = Some(90);
    let mut b = record(1400);
    b.altitude = Some(20.0);
    b.battery_percent = Some(79);
    b.satellites = Some(12);
    b.flight_mode = Some("Sport".to_string());
    let mut c = record(1900);
    c.battery_percent = Some(79);
    c.satellites = Some(12);
    c.flight_mode = Some("Sport".to_string());
    c.rc_signal = Some(93);
    let d = record(2000);
    let out = downsample(&vec![a, b, c, d], 1000, &mean);

    assert_eq!(out.len(), 2);
    assert_eq!(out[0].timestamp_ms, 1000);
    // The mean of the values that are there: 10 and 20.
    assert_eq!(out[0].altitude, Some(15.0));
    assert_eq!(out[0].speed, None);
    // 238 / 3 is 79.33.
    assert_eq!(out[0].battery_percent, Some(79));
    // 183 / 2 is 91.5, halfway: the even neighbour.
    assert_eq!(out[0].rc_signal, Some(92));
    assert_eq!(out[0].satellites, Some(12));
    assert_eq!(out[0].flight_mode.as_deref(), Some("Sport"));
    assert_eq!(out[1].timestamp_ms, 2000);
    assert_eq!(out[1].altitude, None);
    assert_eq!(out[1].battery_percent, None);
    assert_eq!(out[1].satellites, None);
    assert_eq!(out[1].flight_mode, None);
}

#[test]
fn buckets_before_the_start_are_kept_apart() {
    let out = downsample(&vec![record(-1500), record(-1), record(0), record(999)], 1000, &mean);
    let starts: Vec<i64> = out.iter().map(|r| r.timestamp_ms).collect();
    assert_eq!(starts, vec![-2000, -1000, 0]);
    assert!(downsample(&Vec::<TelemetryRecord<f64>>::new(), 1000, &mean).is_empty());
}

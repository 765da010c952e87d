use flight_telemetry::database::Database;
use flight_telemetry::models::TelemetryPoint;
use flight_telemetry::track::decimate_track;

fn sample(timestamp_ms: i64, position: Option<(f64, f64)>, altitude: Option<f64>) -> TelemetryPoint<f64> {
    TelemetryPoint {
        timestamp_ms,
        latitude: position.map(|p| p.0),
        longitude: position.map(|p| p.1),
        altitude,
        height: None,
        vps_height: None,
        altitude_abs: None,
        speed: None,
        velocity_x: None,
        velocity_y: None,
        velocity_z: None,
        pitch: None,
        roll: None,
        yaw: None,
        gimbal_pitch: None,
        gimbal_roll: None,
        gimbal_yaw: None,
        battery_percent: None,
        battery_voltage: None,
        battery_current: None,
        battery_temp: None,
        flight_mode: None,
        gps_signal: None,
        satellites: None,
        rc_signal: None,
    }
}

fn line(count: i64) -> Vec<TelemetryPoint<f64>> {
    (0..count).map(|i| sample(i * 100, Some((i as f64, -(i as f64))), Some(i as f64 * 2.0))).collect()
}

#[test]
fn a_short_track_is_kept_whole() {
    let track = decimate_track(&line(3), 2000);
    assert_eq!(track, vec![[0.0, 0.0, 0.0], [-1.0, 1.0, 2.0], [-2.0, 2.0, 4.0]]);
}

#[test]
fn a_long_track_keeps_every_nth_position() {
    // Ten positions for a budget of five: every second, counted from one.
    let track = decimate_track(&line(10), 5);
    let latitudes: Vec<f64> = track.iter().map(|e| e[1]).collect();
    assert_eq!(latitudes, vec![1.0, 3.0, 5.0, 7.0, 9.0]);
    // Eleven for a budget of five: still every second.
    assert_eq!(decimate_track(&line(11), 5).len(), 5);
    // 4000 for a budget of 2000: every second.
    assert_eq!(decimate_track(&line(4000), 2000).len(), 2000);
    // 13 for a budget of 4: every third.
    let latitudes: Vec<f64> = decimate_track(&line(13), 4).iter().map(|e| e[1]).collect();
    assert_eq!(latitudes, vec![2.0, 5.0, 8.0, 11.0]);
}

#[test]
fn a_track_may_exceed_its_budget() {
    // Nine positions for a budget of five: the step is one, all nine stay.
    assert_eq!(decimate_track(&line(9), 5).len(), 9);
    assert_eq!(decimate_track(&line(3999), 2000).len(), 3999);
}

#[test]
fn samples_without_position_do_not_count() {
    let points = vec![
        sample(0, Some((1.0, 1.0)), Some(5.0)),
        sample(100, None, Some(5.0)),
        sample(200, Some((2.0, 2.0)), Some(6.0)),
        sample(300, None, None),
        sample(400, Some((3.0, 3.0)), Some(7.0)),
        sample(500, Some((4.0, 4.0)), Some(8.0)),
    ];
    // Four positions for a budget of two: the second and the fourth.
    let track = decimate_track(&points, 2);
    assert_eq!(track, vec![[2.0, 2.0, 6.0], [4.0, 4.0, 8.0]]);
    let mut half = sample(0, None, Some(1.0));
    half.latitude = Some(1.0);
    assert!(decimate_track(&vec![half], 10).is_empty());
}

#[test]
fn kept_positions_without_altitude_are_left_out() {
    let points = vec![
        sample(0, Some((1.0, 1.0)), Some(5.0)),
        sample(100, Some((2.0, 2.0)), None),
        sample(200, Some((3.0, 3.0)), Some(7.0)),
        sample(300, Some((4.0, 4.0)), Some(8.0)),
    ];
    assert_eq!(decimate_track(&points, 2), vec![[4.0, 4.0, 8.0]]);
    assert_eq!(decimate_track(&points, 10).len(), 3);
}

#[test]
fn the_track_of_a_flight_defaults_to_two_thousand() {
    let mut db: Database<f64> = Database::new();
    db.bulk_insert_telemetry(1, &line(4100)).unwrap();
    // 4100 / 2000 is 2: every second position.
    assert_eq!(db.get_flight_track(1, None).unwrap().len(), 2050);
    assert_eq!(db.get_flight_track(1, Some(4100)).unwrap().len(), 4100);
    assert_eq!(db.get_flight_track(1, Some(1)).unwrap().len(), 1);
    assert!(db.get_flight_track(2, None).unwrap().is_empty());
}

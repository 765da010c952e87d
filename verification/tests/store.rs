use flight_telemetry::database::{Database, DatabaseError, StorageFailure};
use flight_telemetry::models::{FlightMetadata, TelemetryData, TelemetryPoint};

fn mean(values: Vec<f64>) -> f64 {
    values.iter().sum::<f64>() / values.len() as f64
}

fn sum(values: Vec<f64>) -> f64 {
    values.iter().sum::<f64>()
}

fn flight(id: i64, hash: &str, battery: Option<&str>, start: Option<i64>) -> FlightMetadata<f64> {
    FlightMetadata {
        id,
        file_name: format!("flight_{}.txt", id),
        display_name: format!("Flight {}", id),
        file_hash: Some(hash.to_string()),
        drone_model: None,
        drone_serial: None,
        aircraft_name: None,
        battery_serial: battery.map(|b| b.to_string()),
        start_time: start,
        end_time: None,
        duration_secs: Some(10.0),
        total_distance: Some(100.0),
        max_altitude: Some(30.0),
        max_speed: Some(5.0),
        home_lat: None,
        home_lon: None,
        point_count: 3,
    }
}

fn sample(timestamp_ms: i64, lat: f64, lon: f64) -> TelemetryPoint<f64> {
    TelemetryPoint {
        timestamp_ms,
        latitude: Some(lat),
        longitude: Some(lon),
        altitude: Some(10.0),
        height: Some(12.0),
        vps_height: None,
        altitude_abs: None,
        speed: Some(3.0),
        velocity_x: None,
        velocity_y: None,
        velocity_z: None,
        pitch: None,
        roll: None,
        yaw: None,
        gimbal_pitch: None,
        gimbal_roll: None,
        gimbal_yaw: None,
        battery_percent: Some(80),
        battery_voltage: Some(15.2),
        battery_current: None,
        battery_temp: None,
        flight_mode: Some("GPS".to_string()),
        gps_signal: Some(4),
        satellites: Some(12),
        rc_signal: Some(90),
    }
}

#[test]
fn test_database_initialization() {
    let db: Database<f64> = Database::new();

    assert_eq!(db.raw_logs_dir(), "raw_logs");
    assert_eq!(db.keychains_dir(), "keychains");
    assert_eq!(Database::<f64>::store_file(), "flights.db");

    let flights = db.get_all_flights().unwrap();
    assert!(flights.is_empty());
}

#[test]
fn three_samples_come_back_whole() {
    let mut db: Database<f64> = Database::new();
    let id = db.insert_flight(&flight(7, "h7", None, Some(1000))).unwrap();
    assert_eq!(id, 7);
    let points = vec![sample(0, 1.0, 2.0), sample(100, 1.1, 2.1), sample(200, 1.2, 2.2)];
    assert_eq!(db.bulk_insert_telemetry(id, &points).unwrap(), 3);

    let records = db.get_flight_telemetry(id, Some(10000), &mean).unwrap();
    assert_eq!(records.len(), 3);
    assert_eq!(records[0].latitude, Some(1.0));
    assert_eq!(records[1].longitude, Some(2.1));
    assert_eq!(records[2].flight_mode.as_deref(), Some("GPS"));

    let data = TelemetryData::from_records(&records);
    let seconds: Vec<f64> = data.time_ms.iter().map(|ms| *ms as f64 / 1000.0).collect();
    assert_eq!(seconds, vec![0.0, 0.1, 0.2]);
    assert_eq!(data.time_ms, vec![0, 100, 200]);
    assert_eq!(data.altitude.len(), 3);
    assert_eq!(data.height, vec![Some(12.0), Some(12.0), Some(12.0)]);
    assert_eq!(data.battery, vec![Some(80), Some(80), Some(80)]);
    assert_eq!(data.vps_height, vec![None, None, None]);
}

#[test]
fn twelve_thousand_samples_come_back_in_buckets() {
    let mut db: Database<f64> = Database::new();
    let id = db.insert_flight(&flight(1, "h1", None, None)).unwrap();
    let points: Vec<TelemetryPoint<f64>> =
        (0..12000).map(|i| sample(i * 10, i as f64, 0.5)).collect();
    assert_eq!(db.bulk_insert_telemetry(id, &points).unwrap(), 12000);

    let records = db.get_flight_telemetry(id, Some(5000), &mean).unwrap();
    assert!(records.len() <= 121);
    assert_eq!(records.len(), 120);
    for (k, record) in records.iter().enumerate() {
        assert_eq!(record.timestamp_ms % 1000, 0);
        assert_eq!(record.timestamp_ms, k as i64 * 1000);
    }
    // The first bucket holds samples 0..100: latitudes 0, 1, .., 99.
    assert_eq!(records[0].latitude, Some(49.5));
    assert_eq!(records[0].longitude, Some(0.5));
    assert_eq!(records[0].battery_percent, Some(80));
    assert_eq!(records[0].satellites, Some(12));
    assert_eq!(records[0].flight_mode.as_deref(), Some("GPS"));
    assert_eq!(records[0].vps_height, None);
    assert_eq!(records[119].latitude, Some(11949.5));
}

#[test]
fn default_budget_is_five_thousand() {
    let mut db: Database<f64> = Database::new();
    let points: Vec<TelemetryPoint<f64>> = (0..5000).map(|i| sample(i, 0.0, 0.0)).collect();
    db.bulk_insert_telemetry(3, &points).unwrap();
    assert_eq!(db.get_flight_telemetry(3, None, &mean).unwrap().len(), 5000);
    db.bulk_insert_telemetry(3, &[sample(5000, 0.0, 0.0)]).unwrap();
    // 5001 samples over 5000 ms: buckets of one second.
    let records = db.get_flight_telemetry(3, None, &mean).unwrap();
    assert_eq!(records.len(), 6);
    assert_eq!(records[5].timestamp_ms, 5000);
}

#[test]
fn wide_flights_get_wider_buckets() {
    let mut db: Database<f64> = Database::new();
    // 11 samples, 10 s apart: 100 s for a budget of 10 gives buckets of 10 s.
    let points: Vec<TelemetryPoint<f64>> = (0..11).map(|i| sample(i * 10_000, 0.0, 0.0)).collect();
    db.bulk_insert_telemetry(1, &points).unwrap();
    let records = db.get_flight_telemetry(1, Some(10), &mean).unwrap();
    assert_eq!(records.len(), 11);
    assert_eq!(records[1].timestamp_ms, 10_000);
    // A budget of 4 gives buckets of 25 s: 0, 25, 50, 75, 100.
    let records = db.get_flight_telemetry(1, Some(4), &mean).unwrap();
    let starts: Vec<i64> = records.iter().map(|r| r.timestamp_ms).collect();
    assert_eq!(starts, vec![0, 25_000, 50_000, 75_000, 100_000]);
}

#[test]
fn batteries_are_counted_and_ordered() {
    let mut db: Database<f64> = Database::new();
    db.insert_flight(&flight(1, "a", Some("B2"), Some(1))).unwrap();
    db.insert_flight(&flight(2, "b", Some("B1"), Some(2))).unwrap();
    db.insert_flight(&flight(3, "c", Some("B1"), Some(3))).unwrap();
    db.insert_flight(&flight(4, "d", Some(""), Some(4))).unwrap();
    db.insert_flight(&flight(5, "e", None, Some(5))).unwrap();

    let stats = db.get_overview_stats(&sum).unwrap();
    assert_eq!(stats.total_flights, 5);
    assert_eq!(stats.total_points, 15);
    assert_eq!(stats.total_distance_m, 500.0);
    assert_eq!(stats.total_duration_secs, 50.0);
    assert_eq!(stats.batteries_used.len(), 2);
    assert_eq!(stats.batteries_used[0].battery_serial, "B1");
    assert_eq!(stats.batteries_used[0].flight_count, 2);
    assert_eq!(stats.batteries_used[1].battery_serial, "B2");
    assert_eq!(stats.batteries_used[1].flight_count, 1);
}

#[test]
fn flight_without_samples_is_not_found() {
    let mut db: Database<f64> = Database::new();
    let id = db.insert_flight(&flight(42, "h", None, None)).unwrap();
    let answer = db.get_flight_telemetry(id, None, &mean);
    assert_eq!(answer.unwrap_err(), DatabaseError::FlightNotFound(42));
    assert_eq!(DatabaseError::FlightNotFound(42).message(), "Flight not found: 42");
    assert_eq!(DatabaseError::FlightNotFound(-7).message(), "Flight not found: -7");
}

#[test]
fn empty_store_has_an_empty_overview() {
    let db: Database<f64> = Database::new();
    let stats = db.get_overview_stats(&sum).unwrap();
    assert_eq!(stats.total_flights, 0);
    assert_eq!(stats.total_distance_m, 0.0);
    assert_eq!(stats.total_duration_secs, 0.0);
    assert_eq!(stats.total_points, 0);
    assert!(stats.batteries_used.is_empty());
}

#[test]
fn registered_ids_and_hashes_are_refused() {
    let mut db: Database<f64> = Database::new();
    db.insert_flight(&flight(1, "same", None, None)).unwrap();
    assert_eq!(
        db.insert_flight(&flight(1, "other", None, None)).unwrap_err(),
        DatabaseError::Storage(StorageFailure::DuplicateFlightId)
    );
    assert_eq!(
        db.insert_flight(&flight(2, "same", None, None)).unwrap_err(),
        DatabaseError::Storage(StorageFailure::DuplicateFileHash)
    );
    assert_eq!(db.get_all_flights().unwrap().len(), 1);
    assert!(db.contains_flight(1));
    assert!(!db.contains_flight(2));
    assert!(db.is_file_imported("same").unwrap());
    assert!(!db.is_file_imported("other").unwrap());
    // Flights without a hash do not collide.
    let mut first = flight(3, "x", None, None);
    first.file_hash = None;
    let mut second = flight(4, "y", None, None);
    second.file_hash = None;
    db.insert_flight(&first).unwrap();
    db.insert_flight(&second).unwrap();
    assert_eq!(db.get_all_flights().unwrap().len(), 3);
}

#[test]
fn a_timestamp_is_stored_once() {
    let mut db: Database<f64> = Database::new();
    db.bulk_insert_telemetry(1, &[sample(0, 0.0, 0.0), sample(100, 0.0, 0.0)]).unwrap();
    // One of the new samples is as old as a stored one: none is added.
    assert_eq!(
        db.bulk_insert_telemetry(1, &[sample(200, 0.0, 0.0), sample(100, 0.0, 0.0)]).unwrap_err(),
        DatabaseError::Storage(StorageFailure::DuplicateTimestamp)
    );
    assert_eq!(db.get_flight_telemetry(1, None, &mean).unwrap().len(), 2);
    // Two of the new samples are as old as each other.
    assert_eq!(
        db.bulk_insert_telemetry(1, &[sample(300, 0.0, 0.0), sample(300, 1.0, 1.0)]).unwrap_err(),
        DatabaseError::Storage(StorageFailure::DuplicateTimestamp)
    );
    // The same timestamp in another flight is no collision.
    assert_eq!(db.bulk_insert_telemetry(2, &[sample(100, 0.0, 0.0)]).unwrap(), 1);
    assert_eq!(
        DatabaseError::Storage(StorageFailure::DuplicateTimestamp).message(),
        "Storage error: the flight has a sample with this timestamp"
    );
}

#[test]
fn samples_come_back_in_ascending_order() {
    let mut db: Database<f64> = Database::new();
    db.bulk_insert_telemetry(1, &[sample(300, 3.0, 0.0), sample(100, 1.0, 0.0)]).unwrap();
    db.bulk_insert_telemetry(1, &[sample(200, 2.0, 0.0), sample(0, 0.0, 0.0)]).unwrap();
    let records = db.get_flight_telemetry(1, None, &mean).unwrap();
    let times: Vec<i64> = records.iter().map(|r| r.timestamp_ms).collect();
    assert_eq!(times, vec![0, 100, 200, 300]);
    let latitudes: Vec<Option<f64>> = records.iter().map(|r| r.latitude).collect();
    assert_eq!(latitudes, vec![Some(0.0), Some(1.0), Some(2.0), Some(3.0)]);
}

#[test]
fn deleting_a_flight_removes_its_rows() {
    let mut db: Database<f64> = Database::new();
    db.insert_flight(&flight(1, "a", None, Some(1))).unwrap();
    db.insert_flight(&flight(2, "b", None, Some(2))).unwrap();
    db.bulk_insert_telemetry(1, &[sample(0, 0.0, 0.0)]).unwrap();
    db.bulk_insert_telemetry(2, &[sample(0, 0.0, 0.0)]).unwrap();

    db.delete_flight(1).unwrap();
    let listed: Vec<i64> = db.get_all_flights().unwrap().iter().map(|f| f.id).collect();
    assert_eq!(listed, vec![2]);
    assert_eq!(
        db.get_flight_telemetry(1, None, &mean).unwrap_err(),
        DatabaseError::FlightNotFound(1)
    );
    assert!(db.get_flight_track(1, None).unwrap().is_empty());
    assert_eq!(db.get_flight_telemetry(2, None, &mean).unwrap().len(), 1);
    // Deleting what is not there changes nothing.
    db.delete_flight(9).unwrap();
    assert_eq!(db.get_all_flights().unwrap().len(), 1);

    db.delete_all_flights().unwrap();
    assert!(db.get_all_flights().unwrap().is_empty());
    assert!(db.get_flight_telemetry(2, None, &mean).is_err());
}

#[test]
fn flights_are_listed_by_descending_start() {
    let mut db: Database<f64> = Database::new();
    db.insert_flight(&flight(1, "a", None, Some(100))).unwrap();
    db.insert_flight(&flight(2, "b", None, None)).unwrap();
    db.insert_flight(&flight(3, "c", None, Some(300))).unwrap();
    db.insert_flight(&flight(4, "d", None, Some(100))).unwrap();
    db.insert_flight(&flight(5, "e", None, Some(-5))).unwrap();
    let listed: Vec<i64> = db.get_all_flights().unwrap().iter().map(|f| f.id).collect();
    assert_eq!(listed, vec![3, 1, 4, 5, 2]);
}

#[test]
fn the_flight_list_falls_back_to_the_file_name() {
    let mut db: Database<f64> = Database::new();
    let mut unnamed = flight(1, "a", None, None);
    unnamed.display_name = String::new();
    db.insert_flight(&unnamed).unwrap();
    db.insert_flight(&flight(2, "b", None, None)).unwrap();
    let list = db.get_all_flights().unwrap();
    assert_eq!(list[0].display_name, "flight_1.txt");
    assert_eq!(list[1].display_name, "Flight 2");
    assert_eq!(list[1].point_count, Some(3));
}

#[test]
fn a_flight_is_renamed_with_a_trimmed_name() {
    let mut db: Database<f64> = Database::new();
    db.insert_flight(&flight(1, "a", None, None)).unwrap();
    db.insert_flight(&flight(2, "b", None, None)).unwrap();
    db.update_flight_name(1, "  Morning run \t\n").unwrap();
    let list = db.get_all_flights().unwrap();
    assert_eq!(list[0].display_name, "Morning run");
    assert_eq!(list[0].file_name, "flight_1.txt");
    assert_eq!(list[1].display_name, "Flight 2");
    assert_eq!(db.update_flight_name(1, "").unwrap_err(), DatabaseError::InvalidName);
    assert_eq!(db.update_flight_name(1, " \t ").unwrap_err(), DatabaseError::InvalidName);
    assert_eq!(db.get_all_flights().unwrap()[0].display_name, "Morning run");
    // Renaming what is not there changes nothing.
    db.update_flight_name(9, "Ghost").unwrap();
    assert_eq!(db.get_all_flights().unwrap().len(), 2);
    assert_eq!(DatabaseError::InvalidName.message(), "Display name cannot be empty");
}

#[test]
fn keys_are_cached_by_serial() {
    let mut db: Database<f64> = Database::new();
    assert_eq!(db.get_keychain("S1").unwrap(), None);
    db.store_keychain("S1", "key-one", 10).unwrap();
    db.store_keychain("S2", "key-two", 20).unwrap();
    assert_eq!(db.get_keychain("S1").unwrap().as_deref(), Some("key-one"));
    db.store_keychain("S1", "key-new", 30).unwrap();
    assert_eq!(db.get_keychain("S1").unwrap().as_deref(), Some("key-new"));
    assert_eq!(db.get_keychain("S2").unwrap().as_deref(), Some("key-two"));
    assert_eq!(db.get_keychain("S3").unwrap(), None);
}

#[test]
fn flight_ids_come_from_the_clock() {
    let db: Database<f64> = Database::new();
    assert_eq!(db.generate_flight_id(0), 0);
    assert_eq!(db.generate_flight_id(999_999_999_999), 999_999_999_999);
    assert_eq!(db.generate_flight_id(1_700_000_000_123), 700_000_000_123);
}

#[test]
fn buckets_that_cannot_be_written_are_an_error() {
    let mut db: Database<f64> = Database::new();
    db.bulk_insert_telemetry(1, &[sample(i64::MIN, 0.0, 0.0), sample(0, 0.0, 0.0), sample(i64::MAX, 0.0, 0.0)])
        .unwrap();
    // Three samples under a budget of one: the width is the whole span.
    assert_eq!(
        db.get_flight_telemetry(1, Some(1), &mean).unwrap_err(),
        DatabaseError::Storage(StorageFailure::OutOfRange)
    );
    // Under a budget of two the width fits, the first bucket does not.
    assert_eq!(
        db.get_flight_telemetry(1, Some(2), &mean).unwrap_err(),
        DatabaseError::Storage(StorageFailure::OutOfRange)
    );
    assert_eq!(
        DatabaseError::Storage(StorageFailure::OutOfRange).message(),
        "Storage error: value out of range"
    );
    // Within the budget the samples come back as they are.
    assert_eq!(db.get_flight_telemetry(1, Some(3), &mean).unwrap().len(), 3);

    db.bulk_insert_telemetry(2, &[sample(-5_000, 0.0, 0.0), sample(-1, 0.0, 0.0), sample(4_999, 0.0, 0.0)])
        .unwrap();
    let starts: Vec<i64> =
        db.get_flight_telemetry(2, Some(2), &mean).unwrap().iter().map(|r| r.timestamp_ms).collect();
    // 9999 ms under a budget of 2: buckets of 4999 ms, at -9998, -4999 and 4999.
    assert_eq!(starts, vec![-9998, -4999, 4999]);
}

use flight_telemetry::commands::{get_flight_data, import_log};
use flight_telemetry::database::Database;
use flight_telemetry::hashing::{calculate_file_hash, to_hex};
use flight_telemetry::models::{ImportResult, TelemetryPoint};
use flight_telemetry::parser::{
    archive_name, calculate_stats, extract_drone_model, extract_end_time, extract_telemetry,
    extract_text, frame_source, min_battery, FlightDigest, FlightFigures, FrameSample,
    FrameSource, LogDetails, LogParser, ParserError,
};

fn haversine(lat1: f64, lon1: f64, lat2: f64, lon2: f64) -> f64 {
    let r = 6_371_000.0;
    let a = ((lat2 - lat1).to_radians() / 2.0).sin().powi(2)
        + lat1.to_radians().cos() * lat2.to_radians().cos() * ((lon2 - lon1).to_radians() / 2.0).sin().powi(2);
    r * 2.0 * a.sqrt().asin()
}

fn measure(digest: FlightDigest<f64>) -> FlightFigures<f64> {
    let max = |values: &Vec<f64>| {
        let m = values.iter().cloned().fold(f64::NEG_INFINITY, f64::max);
        if m.is_finite() { m } else { 0.0 }
    };
    let total_distance_m = digest
        .fixes
        .windows(2)
        .map(|pair| haversine(pair[0][1], pair[0][0], pair[1][1], pair[1][0]))
        .sum();
    FlightFigures {
        duration_secs: digest.duration_ms as f64 / 1000.0,
        total_distance_m,
        max_altitude_m: max(&digest.altitudes),
        max_speed_ms: max(&digest.speeds),
        avg_speed_ms: if digest.speeds.is_empty() {
            0.0
        } else {
            digest.speeds.iter().sum::<f64>() / digest.speeds.len() as f64
        },
    }
}

fn mean(values: Vec<f64>) -> f64 {
    values.iter().sum::<f64>() / values.len() as f64
}

fn reading(position: Option<(f64, f64)>) -> TelemetryPoint<f64> {
    TelemetryPoint {
        timestamp_ms: 0,
        latitude: position.map(|p| p.0),
        longitude: position.map(|p| p.1),
        altitude: Some(1.0),
        height: None,
        vps_height: None,
        altitude_abs: None,
        speed: None,
        velocity_x: None,
        velocity_y: None,
        velocity_z: None,
        pitch: None,
        roll: None,
        yaw: None,
        gimbal_pitch: None,
        gimbal_roll: None,
        gimbal_yaw: None,
        battery_percent: None,
        battery_voltage: None,
        battery_current: None,
        battery_temp: None,
        flight_mode: None,
        gps_signal: None,
        satellites: None,
        rc_signal: None,
    }
}

fn frame(fly_time_ms: Option<i64>, position: Option<(f64, f64)>) -> FrameSample<f64> {
    FrameSample { fly_time_ms, reading: reading(position) }
}

fn details() -> LogDetails {
    LogDetails {
        file_name: Some("DJIFlightRecord_2024.txt".to_string()),
        file_stem: Some("DJIFlightRecord_2024".to_string()),
        product_type: "Mavic3".to_string(),
        aircraft_sn: "SN123".to_string(),
        aircraft_name: "  ".to_string(),
        battery_sn: "B1".to_string(),
        start_time: 1_700_000_000_000,
        total_time_ms: 65_000,
    }
}

#[test]
fn hashes_are_sha256_in_hexadecimal() {
    assert_eq!(
        calculate_file_hash(b"hello world"),
        "b94d27b9934d3e08a52e52d7da7dabfac484efe37a5380ee9088f7ace2efcde9"
    );
    assert_eq!(
        calculate_file_hash(b""),
        "e3b0c44298fc1c149afbf4c8996fb92427ae41e4649b934ca495991b7852b855"
    );
    assert_eq!(
        LogParser::<f64>::calculate_file_hash(b"abc"),
        "ba7816bf8f01cfea414140de5dae2223b00361a396177a9cb410ff61f20015ad"
    );
    assert_eq!(to_hex(&[0x00, 0x0f, 0xa0, 0xff, 0x5c]), "000fa0ff5c");
    assert_eq!(to_hex(&[]), "");
}

#[test]
fn frames_get_their_timestamps() {
    let frames = vec![
        frame(None, Some((1.0, 1.0))),
        frame(None, Some((2.0, 2.0))),
        frame(Some(5000), Some((3.0, 3.0))),
        frame(None, None),
        frame(None, Some((4.0, 4.0))),
        frame(Some(5100), Some((5.0, 5.0))),
    ];
    let points = extract_telemetry(&frames);
    let times: Vec<i64> = points.iter().map(|p| p.timestamp_ms).collect();
    // The frame without a position is left out; the clock runs on.
    assert_eq!(times, vec![0, 100, 5000, 5200, 5100]);
    assert_eq!(points[2].latitude, Some(3.0));
    assert_eq!(points[3].longitude, Some(4.0));
    assert_eq!(points[0].altitude, Some(1.0));
    assert!(extract_telemetry(&Vec::<FrameSample<f64>>::new()).is_empty());
    let late = extract_telemetry(&vec![frame(Some(i64::MAX - 50), Some((0.0, 0.0))), frame(None, Some((0.0, 0.0)))]);
    assert_eq!(late[1].timestamp_ms, i64::MAX);
}

#[test]
fn statistics_are_read_off_the_samples() {
    let mut a = reading(None);
    a.timestamp_ms = 0;
    a.battery_percent = Some(90);
    a.height = Some(5.0);
    a.speed = Some(2.0);
    let mut b = reading(Some((0.0, 0.0)));
    b.timestamp_ms = 1000;
    b.battery_percent = Some(70);
    b.altitude = Some(40.0);
    b.speed = Some(6.0);
    let mut c = reading(None);
    c.timestamp_ms = 2000;
    c.altitude = None;
    let mut d = reading(Some((0.0, 1.0)));
    d.timestamp_ms = 61_500;
    d.battery_percent = Some(75);
    d.height = Some(30.0);
    let stats = calculate_stats(&vec![a, b, c, d], &measure);

    assert_eq!(stats.duration_secs, 61.5);
    assert_eq!(stats.min_battery, 70);
    // Longitude first: the first fix is at latitude 0, longitude 0.
    assert_eq!(stats.home_location, Some([0.0, 0.0]));
    // Height counts before altitude: 5, 40, 30.
    assert_eq!(stats.max_altitude_m, 40.0);
    assert_eq!(stats.max_speed_ms, 6.0);
    assert_eq!(stats.avg_speed_ms, 4.0);
    // One degree of longitude on the equator, across the sample without a fix.
    assert!((stats.total_distance_m - 111_195.0).abs() < 50.0);

    let none = calculate_stats(&Vec::<TelemetryPoint<f64>>::new(), &measure);
    assert_eq!(none.duration_secs, 0.0);
    assert_eq!(none.total_distance_m, 0.0);
    assert_eq!(none.max_altitude_m, 0.0);
    assert_eq!(none.min_battery, 0);
    assert_eq!(none.home_location, None);
    assert_eq!(min_battery(&vec![reading(None)]), 0);
}

#[test]
fn a_log_becomes_a_flight_and_its_samples() {
    let db: Database<f64> = Database::new();
    let parser = LogParser::new(&db);
    let frames = vec![frame(None, Some((10.0, 20.0))), frame(Some(65_000), Some((10.5, 20.5)))];
    let parsed = parser.parse_log(b"log content", &details(), &frames, 1_700_000_123_456, &measure).unwrap();

    assert_eq!(parsed.points.len(), 2);
    assert_eq!(parsed.points[1].timestamp_ms, 65_000);
    let m = &parsed.metadata;
    assert_eq!(m.id, 700_000_123_456);
    assert_eq!(m.file_name, "DJIFlightRecord_2024.txt");
    assert_eq!(m.display_name, "DJIFlightRecord_2024");
    assert_eq!(m.file_hash.as_deref(), Some(calculate_file_hash(b"log content").as_str()));
    assert_eq!(m.drone_model.as_deref(), Some("Mavic3"));
    assert_eq!(m.drone_serial.as_deref(), Some("SN123"));
    assert_eq!(m.aircraft_name, None);
    assert_eq!(m.battery_serial.as_deref(), Some("B1"));
    assert_eq!(m.start_time, Some(1_700_000_000_000));
    assert_eq!(m.end_time, Some(1_700_000_065_000));
    assert_eq!(m.duration_secs, Some(65.0));
    assert_eq!(m.max_altitude, Some(1.0));
    assert_eq!(m.home_lat, Some(10.0));
    assert_eq!(m.home_lon, Some(20.0));
    assert_eq!(m.point_count, 2);
}

#[test]
fn a_log_without_a_name_is_unknown() {
    let db: Database<f64> = Database::new();
    let parser = LogParser::new(&db);
    let mut d = details();
    d.file_name = None;
    d.file_stem = None;
    d.product_type = "Unknown(250)".to_string();
    let frames = vec![frame(None, Some((1.0, 1.0)))];
    let parsed = parser.parse_log(b"x", &d, &frames, 5, &measure).unwrap();
    assert_eq!(parsed.metadata.file_name, "unknown");
    assert_eq!(parsed.metadata.display_name, "unknown");
    assert_eq!(parsed.metadata.drone_model, None);
    let mut d = details();
    d.file_stem = Some("  ".to_string());
    let parsed = parser.parse_log(b"x", &d, &frames, 5, &measure).unwrap();
    assert_eq!(parsed.metadata.display_name, "DJIFlightRecord_2024.txt");
}

#[test]
fn a_log_without_positions_holds_no_telemetry() {
    let db: Database<f64> = Database::new();
    let parser = LogParser::new(&db);
    let none: Vec<FrameSample<f64>> = Vec::new();
    assert!(matches!(
        parser.parse_log(b"a", &details(), &none, 1, &measure),
        Err(ParserError::NoTelemetryData)
    ));
    let blind = vec![frame(Some(100), None), frame(None, None)];
    assert!(matches!(
        parser.parse_log(b"a", &details(), &blind, 1, &measure),
        Err(ParserError::NoTelemetryData)
    ));
}

#[test]
fn the_same_content_is_imported_once() {
    let mut db: Database<f64> = Database::new();
    let frames = vec![frame(None, Some((1.0, 2.0))), frame(None, Some((1.5, 2.5)))];
    let first = LogParser::new(&db).parse_log(b"one flight", &details(), &frames, 1000, &measure);
    let report = import_log(&mut db, &first).unwrap();
    assert!(report.success);
    assert_eq!(report.flight_id, Some(1000));
    assert_eq!(report.point_count, 2);
    assert_eq!(report.message, "Successfully imported 2 telemetry points");

    // The same bytes again, under another name and at another time.
    let mut renamed = details();
    renamed.file_name = Some("copy.txt".to_string());
    assert!(matches!(LogParser::new(&db).check_new(b"one flight"), Err(ParserError::AlreadyImported)));
    let second = LogParser::new(&db).parse_log(b"one flight", &renamed, &frames, 2000, &measure);
    assert!(matches!(second, Err(ParserError::AlreadyImported)));
    let report = import_log(&mut db, &second).unwrap();
    assert!(!report.success);
    assert_eq!(report.flight_id, None);
    assert_eq!(report.point_count, 0);
    assert_eq!(report.message, "This flight log has already been imported");
    assert_eq!(db.get_all_flights().unwrap().len(), 1);
    assert_eq!(db.get_flight_telemetry(1000, None, &mean).unwrap().len(), 2);

    // Other bytes are another flight.
    assert!(LogParser::new(&db).check_new(b"another flight").is_ok());
}

#[test]
fn a_failed_import_says_why() {
    let mut db: Database<f64> = Database::new();
    let report = import_log(&mut db, &Err(ParserError::NoTelemetryData)).unwrap();
    assert!(!report.success);
    assert_eq!(report.message, "Failed to parse log: No valid telemetry data found");
    let report = import_log(&mut db, &Err(ParserError::Parse("bad header".to_string()))).unwrap();
    assert_eq!(report.message, "Failed to parse log: Parse error: bad header");
    assert!(db.get_all_flights().unwrap().is_empty());
    let missing = ImportResult::file_not_found();
    assert!(!missing.success);
    assert_eq!(missing.message, "File not found");
    let big = ImportResult::imported(3, 1_234_567);
    assert_eq!(big.message, "Successfully imported 1234567 telemetry points");
    assert_eq!(ImportResult::imported(3, 0).message, "Successfully imported 0 telemetry points");
}

#[test]
fn a_refused_row_fails_the_import() {
    let mut db: Database<f64> = Database::new();
    let frames = vec![frame(Some(100), Some((1.0, 2.0)))];
    let first = LogParser::new(&db).parse_log(b"a", &details(), &frames, 7, &measure);
    import_log(&mut db, &first).unwrap();
    // Another log at the same millisecond gets the same id.
    let second = LogParser::new(&db).parse_log(b"b", &details(), &frames, 7, &measure);
    assert_eq!(
        import_log(&mut db, &second).unwrap_err(),
        "Failed to insert flight: Storage error: a flight with this id exists"
    );
    // Frames with one flight time twice: the flight row stays, the samples do not.
    let twice = vec![frame(Some(100), Some((1.0, 2.0))), frame(Some(100), Some((1.0, 2.0)))];
    let third = LogParser::new(&db).parse_log(b"c", &details(), &twice, 8, &measure);
    assert_eq!(
        import_log(&mut db, &third).unwrap_err(),
        "Failed to insert telemetry: Storage error: the flight has a sample with this timestamp"
    );
    assert_eq!(db.get_all_flights().unwrap().len(), 2);
    assert!(db.get_flight_telemetry(8, None, &mean).is_err());
}

#[test]
fn parser_errors_have_their_texts() {
    assert_eq!(ParserError::Io("denied".to_string()).message(), "IO error: denied");
    assert_eq!(ParserError::Parse("short".to_string()).message(), "Parse error: short");
    assert_eq!(ParserError::AlreadyImported.message(), "File already imported");
    assert_eq!(ParserError::NoTelemetryData.message(), "No valid telemetry data found");
    assert_eq!(
        ParserError::EncryptionKeyRequired.message(),
        "Encryption key required for V13+ logs"
    );
    assert_eq!(ParserError::Api("timeout".to_string()).message(), "API error: timeout");
}

#[test]
fn encrypted_logs_need_a_key() {
    assert_eq!(frame_source(12, false).unwrap(), FrameSource::Plain);
    assert_eq!(frame_source(0, true).unwrap(), FrameSource::Plain);
    assert_eq!(frame_source(13, true).unwrap(), FrameSource::Keychains);
    assert_eq!(frame_source(255, true).unwrap(), FrameSource::Keychains);
    assert!(matches!(frame_source(13, false), Err(ParserError::EncryptionKeyRequired)));
    assert!(matches!(frame_source(14, false), Err(ParserError::EncryptionKeyRequired)));
}

#[test]
fn details_are_kept_unless_blank() {
    assert_eq!(extract_text(&"SN1".to_string()).as_deref(), Some("SN1"));
    assert_eq!(extract_text(&" SN1 ".to_string()).as_deref(), Some(" SN1 "));
    assert_eq!(extract_text(&"".to_string()), None);
    assert_eq!(extract_text(&" \t\n".to_string()), None);
    assert_eq!(extract_text(&"\u{2003}\u{a0}".to_string()), None);
    assert_eq!(extract_drone_model(&"Mini2".to_string()).as_deref(), Some("Mini2"));
    assert_eq!(extract_drone_model(&"Unknown".to_string()), None);
    assert_eq!(extract_drone_model(&"Unknown(7)".to_string()), None);
    assert_eq!(extract_drone_model(&"Unknow".to_string()).as_deref(), Some("Unknow"));
    assert_eq!(extract_end_time(1000, 500), Some(1500));
    assert_eq!(extract_end_time(1000, -2000), Some(-1000));
    assert_eq!(extract_end_time(i64::MAX, 1), None);
}

#[test]
fn archive_copies_keep_their_names_while_they_can() {
    assert_eq!(archive_name(Some("a.txt"), Some("a"), Some("txt"), false, "20240101_000000"), "a.txt");
    assert_eq!(archive_name(None, None, None, false, "20240101_000000"), "unknown.log");
    assert_eq!(
        archive_name(Some("a.txt"), Some("a"), Some("txt"), true, "20240101_000000"),
        "a_20240101_000000.txt"
    );
    assert_eq!(archive_name(Some("a"), None, None, true, "20240101_000000"), "log_20240101_000000.txt");
    let db: Database<f64> = Database::new();
    let parser = LogParser::new(&db);
    assert_eq!(
        parser.archive_log_file(Some("flight.DAT"), Some("flight"), Some("DAT"), true, 1_431_648_000).as_deref(),
        Some("flight_20150515_000000.DAT")
    );
    assert_eq!(
        parser.archive_log_file(Some("flight.DAT"), Some("flight"), Some("DAT"), false, i64::MAX).as_deref(),
        Some("flight.DAT")
    );
    assert_eq!(parser.archive_log_file(Some("flight.DAT"), Some("flight"), Some("DAT"), true, i64::MAX), None);
    assert_eq!(
        parser.archive_log_file(Some("flight.DAT"), Some("flight"), Some("DAT"), true, 8_210_266_876_799).as_deref(),
        Some("flight_+2621421231_235959.DAT")
    );
    assert_eq!(parser.archive_log_file(Some("flight.DAT"), Some("flight"), Some("DAT"), true, 8_210_266_876_800), None);
}

#[test]
fn a_flight_page_holds_list_entry_series_and_track() {
    let mut db: Database<f64> = Database::new();
    let frames: Vec<FrameSample<f64>> =
        (0..6).map(|i| frame(Some(i * 500), Some((i as f64, 10.0 + i as f64)))).collect();
    let parsed = LogParser::new(&db).parse_log(b"page", &details(), &frames, 77, &measure);
    import_log(&mut db, &parsed).unwrap();

    let page = get_flight_data(&db, 77, Some(100), &mean).unwrap();
    assert_eq!(page.flight.id, 77);
    assert_eq!(page.flight.display_name, "DJIFlightRecord_2024");
    assert_eq!(page.telemetry.time_ms, vec![0, 500, 1000, 1500, 2000, 2500]);
    assert_eq!(page.telemetry.altitude, vec![Some(1.0); 6]);
    assert_eq!(page.track.len(), 6);
    assert_eq!(page.track[2], [12.0, 2.0, 1.0]);

    // Under a budget of 2 the 2500 ms of the flight fall into buckets of 1250 ms.
    let page = get_flight_data(&db, 77, Some(2), &mean).unwrap();
    assert_eq!(page.telemetry.time_ms, vec![0, 1250, 2500]);
    assert_eq!(page.track.len(), 6);

    assert_eq!(get_flight_data(&db, 78, None, &mean).unwrap_err(), "Flight 78 not found");
    let mut db: Database<f64> = Database::new();
    let lonely = LogParser::new(&db).parse_log(b"q", &details(), &frames, 5, &measure).unwrap();
    db.insert_flight(&lonely.metadata).unwrap();
    assert_eq!(get_flight_data(&db, 5, None, &mean).unwrap_err(), "Flight 5 not found");
}

#[test]
fn a_page_that_spans_too_long_is_an_error() {
    let mut db: Database<f64> = Database::new();
    let frames = vec![frame(Some(i64::MIN), Some((0.0, 0.0))), frame(Some(i64::MAX - 200), Some((1.0, 1.0)))];
    let parsed = LogParser::new(&db).parse_log(b"long", &details(), &frames, 9, &measure);
    import_log(&mut db, &parsed).unwrap();
    assert_eq!(
        get_flight_data(&db, 9, None, &mean).unwrap_err(),
        "Failed to get telemetry: Storage error: value out of range"
    );
    assert_eq!(
        get_flight_data(&db, 9, Some(1), &mean).unwrap_err(),
        "Failed to get telemetry: Storage error: value out of range"
    );
}

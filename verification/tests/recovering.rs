use flight_telemetry::clock::{FIRST_DATED_SECOND, LAST_DATED_SECOND};
use flight_telemetry::recovery::{
    backup_db, backup_names, Outcome, RecoveryAction, RecoveryFailure, RecoveryState,
};
use flight_telemetry::schema::{
    canonical_columns, create_telemetry_table, ensure_telemetry_column_order, order_matches, rebuild_plan, select_list,
    ColumnSource,
};

fn run(outcomes: &[Outcome]) -> (RecoveryState, Vec<RecoveryAction>) {
    let mut state = RecoveryState::start();
    let mut actions = vec![state.next_action()];
    for outcome in outcomes {
        let (next, action) = state.step(*outcome);
        state = next;
        actions.push(action);
    }
    (state, actions)
}

#[test]
fn a_store_that_opens_is_ready() {
    let (state, actions) = run(&[Outcome::Succeeded]);
    assert_eq!(state, RecoveryState::Ready);
    assert_eq!(actions, vec![RecoveryAction::OpenStore, RecoveryAction::Finish]);
}

#[test]
fn a_failed_open_clears_the_log_and_retries() {
    let (state, actions) = run(&[Outcome::Failed, Outcome::Failed, Outcome::Succeeded]);
    assert_eq!(state, RecoveryState::Ready);
    assert_eq!(
        actions,
        vec![
            RecoveryAction::OpenStore,
            RecoveryAction::RemoveLog,
            RecoveryAction::OpenStore,
            RecoveryAction::Finish
        ]
    );
}

#[test]
fn a_second_failure_moves_the_store_aside() {
    let (state, actions) = run(&[
        Outcome::Failed,
        Outcome::Succeeded,
        Outcome::Failed,
        Outcome::Succeeded,
        Outcome::Succeeded,
    ]);
    assert_eq!(state, RecoveryState::Ready);
    assert_eq!(
        actions,
        vec![
            RecoveryAction::OpenStore,
            RecoveryAction::RemoveLog,
            RecoveryAction::OpenStore,
            RecoveryAction::BackUpStore,
            RecoveryAction::OpenStore,
            RecoveryAction::Finish
        ]
    );
}

#[test]
fn a_third_failure_is_final() {
    let all = [Outcome::Failed; 5];
    let (state, _) = run(&all[..3]);
    assert_eq!(state, RecoveryState::BackingUp);
    let (state, actions) = run(&all[..4]);
    assert_eq!(state, RecoveryState::Failed(RecoveryFailure::Backup));
    assert_eq!(actions[4], RecoveryAction::GiveUp);
    let (state, _) = run(&[
        Outcome::Failed,
        Outcome::Failed,
        Outcome::Failed,
        Outcome::Succeeded,
        Outcome::Failed,
    ]);
    assert_eq!(state, RecoveryState::Failed(RecoveryFailure::Open));
    // Nothing follows the end.
    assert_eq!(state.step(Outcome::Succeeded).0, RecoveryState::Failed(RecoveryFailure::Open));
    assert_eq!(RecoveryState::Ready.step(Outcome::Failed).0, RecoveryState::Ready);
}

#[test]
fn backups_are_named_by_the_time() {
    let names = backup_names("20240102_030405");
    assert_eq!(names.store, "flights.db.bak.20240102_030405");
    assert_eq!(names.log, "flights.db.db.wal.bak.20240102_030405");
    let names = backup_db(1_431_648_000).unwrap();
    assert_eq!(names.store, "flights.db.bak.20150515_000000");
    assert_eq!(names.log, "flights.db.db.wal.bak.20150515_000000");
    assert_eq!(backup_db(0).unwrap().store, "flights.db.bak.19700101_000000");
    assert_eq!(backup_db(86_399).unwrap().store, "flights.db.bak.19700101_235959");
    assert!(backup_db(i64::MAX).is_none());
}

#[test]
fn backups_are_named_for_every_time_with_a_date() {
    // The first and the last second of the dates that there are.
    assert_eq!(FIRST_DATED_SECOND, -8_334_601_228_800);
    assert_eq!(LAST_DATED_SECOND, 8_210_266_876_799);
    assert_eq!(backup_db(FIRST_DATED_SECOND).unwrap().store, "flights.db.bak.-2621430101_000000");
    assert_eq!(backup_db(LAST_DATED_SECOND).unwrap().store, "flights.db.bak.+2621421231_235959");
    assert!(backup_db(FIRST_DATED_SECOND - 1).is_none());
    assert!(backup_db(LAST_DATED_SECOND + 1).is_none());
    assert!(backup_db(i64::MIN).is_none());
    // Times within: before the epoch, and past the year 9999.
    assert_eq!(backup_db(-1).unwrap().store, "flights.db.bak.19691231_235959");
    assert_eq!(backup_db(253_402_300_800).unwrap().store, "flights.db.bak.+100000101_000000");
    assert_eq!(backup_db(-62_135_596_801).unwrap().log, "flights.db.db.wal.bak.00001231_235959");
}

#[test]
fn the_expected_layout_needs_no_rebuild() {
    let columns = canonical_columns();
    assert_eq!(columns.len(), 26);
    assert_eq!(columns[0], "flight_id");
    assert_eq!(columns[1], "timestamp_ms");
    assert_eq!(columns[25], "rc_signal");
    assert!(order_matches(&columns));
    assert_eq!(ensure_telemetry_column_order(&columns), None);
}

#[test]
fn a_missing_column_is_rebuilt_as_null() {
    let mut actual = canonical_columns();
    actual.retain(|c| c != "vps_height");
    assert!(!order_matches(&actual));
    let plan = rebuild_plan(&actual);
    assert_eq!(plan.len(), 26);
    for (c, source) in plan.iter().enumerate() {
        if c == 6 {
            assert_eq!(*source, ColumnSource::Null);
        } else {
            assert_eq!(*source, ColumnSource::Existing);
        }
    }
    assert_eq!(
        select_list(&actual),
        "flight_id, timestamp_ms, latitude, longitude, altitude, height, NULL AS vps_height, \
         altitude_abs, speed, velocity_x, velocity_y, velocity_z, pitch, roll, yaw, gimbal_pitch, \
         gimbal_roll, gimbal_yaw, battery_percent, battery_voltage, battery_current, battery_temp, \
         flight_mode, gps_signal, satellites, rc_signal"
    );
    let script = ensure_telemetry_column_order(&actual).unwrap();
    assert!(script.starts_with("BEGIN TRANSACTION; CREATE TABLE telemetry_new AS SELECT flight_id, "));
    assert!(script.contains(", height, NULL AS vps_height, altitude_abs, "));
    assert!(script.ends_with(" ON telemetry(flight_id, timestamp_ms); COMMIT;"));
}

#[test]
fn columns_out_of_order_are_rebuilt_in_order() {
    let mut actual = canonical_columns();
    // A column added late stands at the end.
    let height = actual.remove(5);
    actual.push(height);
    actual.push("legacy".to_string());
    assert!(!order_matches(&actual));
    let list = select_list(&actual);
    assert!(list.starts_with("flight_id, timestamp_ms, latitude, longitude, altitude, height, vps_height"));
    assert!(!list.contains("NULL"));
    assert!(!list.contains("legacy"));
    assert!(select_list(&Vec::new()).starts_with("NULL AS flight_id, NULL AS timestamp_ms, "));
}

#[test]
fn the_telemetry_table_is_created_with_its_columns() {
    let statement = create_telemetry_table();
    assert!(statement.starts_with(
        "CREATE TABLE IF NOT EXISTS telemetry (flight_id BIGINT NOT NULL, timestamp_ms BIGINT NOT NULL, latitude DOUBLE, "
    ));
    assert!(statement.contains(", gimbal_yaw DOUBLE, battery_percent INTEGER, battery_voltage DOUBLE, "));
    assert!(statement.contains(", flight_mode VARCHAR, gps_signal INTEGER, satellites INTEGER, rc_signal INTEGER, "));
    assert!(statement.ends_with("rc_signal INTEGER, PRIMARY KEY (flight_id, timestamp_ms));"));
}

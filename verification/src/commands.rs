//! What the application's commands decide: how an import ends, and what one
//! flight's page is made of.

use crate::database::{error_text, Database, DatabaseError, StorageFailure};
use crate::downsample::{accepts_values, bucket_start, lemma_downsampling_ends};
use crate::models::{
    is_telemetry_data, relative_times, strictly_ascending, time_axis_fits, Flight,
    FlightDataResponse, ImportResult, TelemetryData, TelemetryPoint, TelemetryRecord,
};
use crate::parser::{parser_error_text, ParseResult, ParserError};
use crate::query::{
    buckets_fit, budget_or, is_telemetry_answer, lemma_records_ascend, width_for,
    DEFAULT_TELEMETRY_POINTS, DEFAULT_TRACK_POINTS,
};
use crate::registry::{
    has_flight, has_hash, lemma_listed_is_registered, lemma_unlisted_is_unregistered, listing,
};
use crate::series::{is_merge, key_collision, records_of};
use crate::text::{decimal, decimal_text, join, signed_decimal, signed_decimal_text};
use crate::track::is_track_of;
use vstd::prelude::*;

verus! {

/// The text of an import that came through with `point_count` samples.
pub open spec fn success_text(point_count: nat) -> Seq<char> {
    "Successfully imported "@ + decimal(point_count) + " telemetry points"@
}

/// The text of an import that a parse error ended.
pub open spec fn rejection_text(error: ParserError) -> Seq<char> {
    if error is AlreadyImported {
        "This flight log has already been imported"@
    } else {
        "Failed to parse log: "@ + parser_error_text(error)
    }
}

/// The text of a flight that is not there.
pub open spec fn not_found_text(flight_id: i64) -> Seq<char> {
    "Flight "@ + signed_decimal(flight_id as int) + " not found"@
}

/// `result` reports a failed import with the text `message`.
pub open spec fn is_failure(result: ImportResult, message: Seq<char>) -> bool {
    &&& !result.success
    &&& result.flight_id is None
    &&& result.message@ == message
    &&& result.point_count == 0
}

/// `result` reports the import of the flight `flight_id` with `point_count`
/// samples.
pub open spec fn is_success(result: ImportResult, flight_id: i64, point_count: usize) -> bool {
    &&& result.success
    &&& result.flight_id == Some(flight_id)
    &&& result.message@ == success_text(point_count as nat)
    &&& result.point_count == point_count
}

impl ImportResult {
    /// Reports that the file to import is not there.
    pub fn file_not_found() -> (result: Self)
        ensures
            is_failure(result, "File not found"@),
    {
        ImportResult {
            success: false,
            flight_id: None,
            message: String::from_str("File not found"),
            point_count: 0,
        }
    }

    /// Reports an import that a parse error ended.
    pub fn rejected(error: &ParserError) -> (result: Self)
        ensures
            is_failure(result, rejection_text(*error)),
    {
        let message: String = match error {
            ParserError::AlreadyImported => String::from_str(
                "This flight log has already been imported",
            ),
            _ => join("Failed to parse log: ", error.message().as_str()),
        };
        ImportResult { success: false, flight_id: None, message, point_count: 0 }
    }

    /// Reports the import of the flight `flight_id` with `point_count` samples.
    pub fn imported(flight_id: i64, point_count: usize) -> (result: Self)
        ensures
            is_success(result, flight_id, point_count),
    {
        let counted: String = join(
            "Successfully imported ",
            decimal_text(point_count as u64).as_str(),
        );
        let message: String = join(counted.as_str(), " telemetry points");
        assert(message@ =~= success_text(point_count as nat));
        ImportResult { success: true, flight_id: Some(flight_id), message, point_count }
    }
}

/// Writes the rows of an import to the store, and reports how the import
/// ended.
///
/// A parse error ends the import with a report and leaves the store as it
/// was. Else the flight is registered and then its samples are added. The
/// two are separate writes: where the store refuses the samples the flight
/// stays registered, and the refusal is the error.
pub fn import_log<V: Copy>(db: &mut Database<V>, parsed: &Result<ParseResult<V>, ParserError>) -> (result:
    Result<ImportResult, String>)
    ensures
        match *parsed {
            Err(error) => {
                &&& result matches Ok(report)
                &&& is_failure(report, rejection_text(error))
                &&& final(db).flights() == old(db).flights()
                &&& forall|id: i64| final(db).telemetry(id) == old(db).telemetry(id)
            },
            Ok(rows) => {
                let id = rows.metadata.id;
                let hash = rows.metadata.file_hash;
                if has_flight(old(db).flights(), id) {
                    &&& result matches Err(text)
                    &&& text@ == "Failed to insert flight: "@ + error_text(
                        DatabaseError::Storage(StorageFailure::DuplicateFlightId),
                    )
                    &&& final(db).flights() == old(db).flights()
                    &&& forall|any: i64| final(db).telemetry(any) == old(db).telemetry(any)
                } else if hash is Some && has_hash(old(db).flights(), hash->0@) {
                    &&& result matches Err(text)
                    &&& text@ == "Failed to insert flight: "@ + error_text(
                        DatabaseError::Storage(StorageFailure::DuplicateFileHash),
                    )
                    &&& final(db).flights() == old(db).flights()
                    &&& forall|any: i64| final(db).telemetry(any) == old(db).telemetry(any)
                } else {
                    &&& final(db).flights() == old(db).flights().push(rows.metadata)
                    &&& forall|other: i64|
                        other != id ==> final(db).telemetry(other) == old(db).telemetry(other)
                    &&& if key_collision(old(db).telemetry(id), rows.points@) {
                        &&& result matches Err(text)
                        &&& text@ == "Failed to insert telemetry: "@ + error_text(
                            DatabaseError::Storage(StorageFailure::DuplicateTimestamp),
                        )
                        &&& final(db).telemetry(id) == old(db).telemetry(id)
                    } else {
                        &&& result matches Ok(report)
                        &&& is_success(report, id, rows.points.len())
                        &&& is_merge(old(db).telemetry(id), rows.points@, final(db).telemetry(id))
                    }
                }
            },
        },
        final(db).keychain() == old(db).keychain(),
{
    match parsed {
        Err(error) => Ok(ImportResult::rejected(error)),
        Ok(rows) => {
            let flight_id: i64 = match db.insert_flight(&rows.metadata) {
                Ok(id) => id,
                Err(e) => {
                    return Err(join("Failed to insert flight: ", e.message().as_str()));
                },
            };
            let point_count: usize = match db.bulk_insert_telemetry(
                flight_id,
                rows.points.as_slice(),
            ) {
                Ok(count) => count,
                Err(e) => {
                    return Err(join("Failed to insert telemetry: ", e.message().as_str()));
                },
            };
            Ok(ImportResult::imported(flight_id, point_count))
        },
    }
}

/// `page` is the page of the flight `flight_id` with the list entry `flight`
/// and the stored samples `stored`: the entry, the telemetry under `budget`
/// as parallel series, and the track under the default budget of a map.
pub open spec fn is_flight_page<V, F: Fn(Vec<V>) -> V>(
    flight: Flight<V>,
    stored: Seq<TelemetryPoint<V>>,
    flight_id: i64,
    budget: int,
    page: FlightDataResponse<V>,
    mean: F,
) -> bool {
    &&& page.flight == flight
    &&& exists|records: Vec<TelemetryRecord<V>>|
        {
            &&& #[trigger] is_telemetry_answer(
                stored,
                flight_id,
                budget,
                Ok::<Vec<TelemetryRecord<V>>, DatabaseError>(records),
                mean,
            )
            &&& is_telemetry_data(records@, page.telemetry)
        }
    &&& is_track_of(stored, DEFAULT_TRACK_POINTS as int, page.track@)
}

/// The time axis of ascending records fits where the last is not too far
/// from the first.
proof fn lemma_axis_fits<V>(records: Seq<TelemetryRecord<V>>)
    requires
        strictly_ascending(records),
        records.len() > 0 ==> records.last().timestamp_ms - records.first().timestamp_ms
            <= i64::MAX,
    ensures
        time_axis_fits(records),
{
    assert forall|i: int| 0 <= i < records.len() implies i64::MIN <= #[trigger] relative_times(
        records,
    )[i] <= i64::MAX by {
        if 0 < i {
            assert(records[0].timestamp_ms < records[i].timestamp_ms);
        }
        if i < records.len() - 1 {
            assert(records[i].timestamp_ms < records[records.len() - 1].timestamp_ms);
        }
    }
}

/// The milliseconds from the first to the last record of a telemetry answer
/// for `stored` under `budget`.
pub open spec fn axis_span<V>(stored: Seq<TelemetryPoint<V>>, budget: int) -> int {
    if stored.len() <= budget {
        stored.last().timestamp_ms - stored.first().timestamp_ms
    } else {
        bucket_start(stored.last().timestamp_ms as int, width_for(stored, budget)) - bucket_start(
            stored.first().timestamp_ms as int,
            width_for(stored, budget),
        )
    }
}

/// The telemetry of a flight with the samples `stored` can be given under
/// `budget` and laid over a time axis.
pub open spec fn axis_fits<V>(stored: Seq<TelemetryPoint<V>>, budget: int) -> bool {
    &&& stored.len() <= budget || buckets_fit(stored, width_for(stored, budget))
    &&& axis_span(stored, budget) <= i64::MAX
}

/// Gathers what one flight's page shows.
///
/// A flight that is not registered, or has no samples, is not found. The
/// page holds the flight's entry in the flight list, its telemetry under
/// `max_points` and its track under the default budget of a map. Where the
/// telemetry cannot be given, or spans more milliseconds than fit in 64
/// bits, the error says so.
pub fn get_flight_data<V: Copy, F: Fn(Vec<V>) -> V>(
    db: &Database<V>,
    flight_id: i64,
    max_points: Option<usize>,
    mean: &F,
) -> (result: Result<FlightDataResponse<V>, String>)
    requires
        max_points != Some(0usize),
        accepts_values(*mean),
    ensures
        ({
            let stored = db.telemetry(flight_id);
            let budget = budget_or(max_points, DEFAULT_TELEMETRY_POINTS);
            if !has_flight(db.flights(), flight_id) || stored.len() == 0 {
                result matches Err(text) && text@ == not_found_text(flight_id)
            } else if !axis_fits(stored, budget) {
                result matches Err(text) && text@ == "Failed to get telemetry: "@ + error_text(
                    DatabaseError::Storage(StorageFailure::OutOfRange),
                )
            } else {
                result matches Ok(page) && exists|i: int|
                    {
                        &&& 0 <= i < db.flights().len()
                        &&& (#[trigger] db.flights()[i]).id == flight_id
                        &&& is_flight_page(
                            listing(db.flights()[i]),
                            stored,
                            flight_id,
                            budget,
                            page,
                            *mean,
                        )
                    }
            }
        }),
{
    let flights: Vec<Flight<V>> = match db.get_all_flights() {
        Ok(list) => list,
        Err(e) => {
            return Err(join("Failed to get flights: ", e.message().as_str()));
        },
    };
    let ghost list = flights@;
    let k: usize = match find_listed(&flights, flight_id) {
        Some(k) => k,
        None => {
            proof {
                lemma_unlisted_is_unregistered(db.flights(), list, flight_id);
            }
            return Err(not_found(flight_id));
        },
    };
    proof {
        lemma_listed_is_registered(db.flights(), list, k as int);
    }
    let records: Vec<TelemetryRecord<V>> = match db.get_flight_telemetry(
        flight_id,
        max_points,
        mean,
    ) {
        Ok(records) => records,
        Err(DatabaseError::FlightNotFound(_)) => {
            return Err(not_found(flight_id));
        },
        Err(e) => {
            return Err(join("Failed to get telemetry: ", e.message().as_str()));
        },
    };
    proof {
        let stored = db.telemetry(flight_id);
        let budget = budget_or(max_points, DEFAULT_TELEMETRY_POINTS);
        lemma_records_ascend(stored);
        if stored.len() > budget {
            assert(records_of(stored).first().timestamp_ms == stored.first().timestamp_ms);
            assert(records_of(stored).last().timestamp_ms == stored.last().timestamp_ms);
            lemma_downsampling_ends(records_of(stored), width_for(stored, budget), records@, *mean);
        }
    }
    let n: usize = records.len();
    if n > 0 && records[n - 1].timestamp_ms.checked_sub(records[0].timestamp_ms).is_none() {
        return Err(
            join(
                "Failed to get telemetry: ",
                DatabaseError::Storage(StorageFailure::OutOfRange).message().as_str(),
            ),
        );
    }
    proof {
        lemma_axis_fits(records@);
    }
    let telemetry: TelemetryData<V> = TelemetryData::from_records(records.as_slice());
    let track: Vec<[V; 3]> = match db.get_flight_track(flight_id, Some(DEFAULT_TRACK_POINTS)) {
        Ok(track) => track,
        Err(e) => {
            return Err(join("Failed to get track: ", e.message().as_str()));
        },
    };
    let mut flights = flights;
    let flight: Flight<V> = flights.swap_remove(k);
    let page = FlightDataResponse { flight, telemetry, track };
    assert(is_telemetry_answer(
        db.telemetry(flight_id),
        flight_id,
        budget_or(max_points, DEFAULT_TELEMETRY_POINTS),
        Ok::<Vec<TelemetryRecord<V>>, DatabaseError>(records),
        *mean,
    ));
    proof {
        let i = choose|i: int|
            0 <= i < db.flights().len() && list[k as int] == listing(#[trigger] db.flights()[i]);
        assert(db.flights()[i].id == flight_id);
    }
    Ok(page)
}

/// Finds the flight `flight_id` in a flight list.
fn find_listed<V>(list: &Vec<Flight<V>>, flight_id: i64) -> (found: Option<usize>)
    ensures
        match found {
            Some(k) => k < list@.len() && list@[k as int].id == flight_id,
            None => forall|j: int| 0 <= j < list@.len() ==> (#[trigger] list@[j]).id != flight_id,
        },
{
    let mut i: usize = 0;
    while i < list.len()
        invariant
            i <= list@.len(),
            forall|j: int| 0 <= j < i ==> (#[trigger] list@[j]).id != flight_id,
        decreases list@.len() - i,
    {
        if list[i].id == flight_id {
            return Some(i);
        }
        i += 1;
    }
    None
}

/// Writes that a flight is not there.
fn not_found(flight_id: i64) -> (text: String)
    ensures
        text@ == not_found_text(flight_id),
{
    let named: String = join("Flight ", signed_decimal_text(flight_id).as_str());
    let text: String = join(named.as_str(), " not found");
    assert(text@ =~= not_found_text(flight_id));
    text
}

} // verus!

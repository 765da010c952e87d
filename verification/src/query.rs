//! Queries over the stored samples of one flight: its telemetry, whole or
//! downsampled, and its track.

use crate::database::{DatabaseError, StorageFailure};
use crate::downsample::{
    accepts_values, ascending, bucket_size_ms, bucket_start, bucket_start_ms, bucket_width,
    buckets_to_cover, downsample, is_downsampling, lemma_downsampling_is_bounded, MIN_BUCKET_MS,
};
use crate::models::{relative_times, strictly_ascending, TelemetryPoint, TelemetryRecord};
use crate::series::{raw_records, records_of, samples_ascending};
use crate::track::{decimate_track, is_track_of};
use vstd::prelude::*;

verus! {

/// The number of records that a chart is given where the caller names none.
pub const DEFAULT_TELEMETRY_POINTS: usize = 5000;

/// The number of positions that a map is given where the caller names none.
pub const DEFAULT_TRACK_POINTS: usize = 2000;

/// The budget that a caller asked for, or `default`.
pub open spec fn budget_or(max_points: Option<usize>, default: usize) -> int {
    match max_points {
        Some(m) => m as int,
        None => default as int,
    }
}

/// The bucket width for the stored samples of a flight under a budget.
pub open spec fn width_for<V>(stored: Seq<TelemetryPoint<V>>, budget: int) -> int {
    bucket_width(stored.first().timestamp_ms as int, stored.last().timestamp_ms as int, budget)
}

/// The buckets of `width` for `stored` can be written down: the width and the
/// start of the first bucket fit in 64 bits.
pub open spec fn buckets_fit<V>(stored: Seq<TelemetryPoint<V>>, width: int) -> bool {
    width <= i64::MAX && bucket_start(stored.first().timestamp_ms as int, width) >= i64::MIN
}

/// `answer` is what a telemetry query owes for the stored samples of the
/// flight `flight_id` under a budget of `budget` records.
///
/// A flight without samples is not found. One with no more samples than the
/// budget is given whole, in ascending order. Any other is downsampled into
/// buckets of the width for the budget, unless they cannot be written down.
pub open spec fn is_telemetry_answer<V, F: Fn(Vec<V>) -> V>(
    stored: Seq<TelemetryPoint<V>>,
    flight_id: i64,
    budget: int,
    answer: Result<Vec<TelemetryRecord<V>>, DatabaseError>,
    mean: F,
) -> bool {
    if stored.len() == 0 {
        answer == Err::<Vec<TelemetryRecord<V>>, DatabaseError>(
            DatabaseError::FlightNotFound(flight_id),
        )
    } else if stored.len() <= budget {
        answer matches Ok(records) && records@ == records_of(stored)
    } else if !buckets_fit(stored, width_for(stored, budget)) {
        answer == Err::<Vec<TelemetryRecord<V>>, DatabaseError>(
            DatabaseError::Storage(StorageFailure::OutOfRange),
        )
    } else {
        answer matches Ok(records) && is_downsampling(
            records_of(stored),
            width_for(stored, budget),
            records@,
            mean,
        )
    }
}

/// The records of samples in strictly ascending order strictly ascend.
pub proof fn lemma_records_ascend<V>(stored: Seq<TelemetryPoint<V>>)
    requires
        samples_ascending(stored),
    ensures
        strictly_ascending(records_of(stored)),
        ascending(records_of(stored)),
{
    let records = records_of(stored);
    assert forall|i: int, j: int| 0 <= i <= j < records.len() implies records[i].timestamp_ms
        <= records[j].timestamp_ms by {
        if i < j {
            assert(stored[i].timestamp_ms < stored[j].timestamp_ms);
        }
    }
}

/// A flight with no more samples than the budget is given whole: as many
/// records as it has samples, strictly ascending by timestamp, and the time
/// axis of the records starts at zero.
pub proof fn lemma_short_flight_is_whole<V, F: Fn(Vec<V>) -> V>(
    stored: Seq<TelemetryPoint<V>>,
    flight_id: i64,
    budget: int,
    answer: Result<Vec<TelemetryRecord<V>>, DatabaseError>,
    mean: F,
)
    requires
        samples_ascending(stored),
        0 < stored.len() <= budget,
        is_telemetry_answer(stored, flight_id, budget, answer, mean),
    ensures
        answer is Ok,
        answer->Ok_0@.len() == stored.len(),
        strictly_ascending(answer->Ok_0@),
        relative_times(answer->Ok_0@)[0] == 0,
{
    lemma_records_ascend(stored);
}

/// A flight with more samples than the budget, where it is answered, comes in
/// buckets: the width is the minimum at least, every record starts at a
/// multiple of the width, and there are no more records than buckets cover
/// the flight's duration, and one.
pub proof fn lemma_long_flight_is_bucketed<V, F: Fn(Vec<V>) -> V>(
    stored: Seq<TelemetryPoint<V>>,
    flight_id: i64,
    budget: int,
    answer: Result<Vec<TelemetryRecord<V>>, DatabaseError>,
    mean: F,
)
    requires
        samples_ascending(stored),
        0 < budget < stored.len(),
        is_telemetry_answer(stored, flight_id, budget, answer, mean),
        answer is Ok,
    ensures
        ({
            let width = width_for(stored, budget);
            let duration = stored.last().timestamp_ms - stored.first().timestamp_ms;
            &&& width >= MIN_BUCKET_MS
            &&& forall|k: int|
                0 <= k < answer->Ok_0@.len() ==> (#[trigger] answer->Ok_0@[k]).timestamp_ms as int
                    % width == 0
            &&& answer->Ok_0@.len() <= buckets_to_cover(duration, width) + 1
        }),
{
    lemma_records_ascend(stored);
    let records = records_of(stored);
    assert(records.first().timestamp_ms == stored.first().timestamp_ms);
    assert(records.last().timestamp_ms == stored.last().timestamp_ms);
    lemma_downsampling_is_bounded(records, budget, answer->Ok_0@, mean);
}

/// Answers a telemetry query from the stored samples of a flight.
///
/// `max_points` is the budget, 5000 where it is `None`; `mean` takes the mean
/// of a list of measurements that is not empty.
pub fn flight_telemetry<V: Copy, F: Fn(Vec<V>) -> V>(
    stored: &Vec<TelemetryPoint<V>>,
    flight_id: i64,
    max_points: Option<usize>,
    mean: &F,
) -> (answer: Result<Vec<TelemetryRecord<V>>, DatabaseError>)
    requires
        samples_ascending(stored@),
        max_points != Some(0usize),
        accepts_values(*mean),
    ensures
        is_telemetry_answer(
            stored@,
            flight_id,
            budget_or(max_points, DEFAULT_TELEMETRY_POINTS),
            answer,
            *mean,
        ),
{
    let budget: usize = match max_points {
        Some(m) => m,
        None => DEFAULT_TELEMETRY_POINTS,
    };
    let count: usize = stored.len();
    if count == 0 {
        return Err(DatabaseError::FlightNotFound(flight_id));
    }
    let records: Vec<TelemetryRecord<V>> = raw_records(stored);
    if count <= budget {
        return Ok(records);
    }
    proof {
        lemma_records_ascend(stored@);
        assert(stored@[0].timestamp_ms <= stored@[count - 1].timestamp_ms);
    }
    let first_ms: i64 = stored[0].timestamp_ms;
    let last_ms: i64 = stored[count - 1].timestamp_ms;
    let width: i64 = match bucket_size_ms(first_ms, last_ms, budget) {
        Some(w) => w,
        None => {
            return Err(DatabaseError::Storage(StorageFailure::OutOfRange));
        },
    };
    if bucket_start_ms(first_ms, width).is_none() {
        return Err(DatabaseError::Storage(StorageFailure::OutOfRange));
    }
    Ok(downsample(&records, width, mean))
}

/// Answers a track query from the stored samples of a flight.
///
/// `max_points` is the budget, 2000 where it is `None`.
pub fn flight_track<V: Copy>(stored: &Vec<TelemetryPoint<V>>, max_points: Option<usize>) -> (track:
    Vec<[V; 3]>)
    requires
        max_points != Some(0usize),
    ensures
        is_track_of(stored@, budget_or(max_points, DEFAULT_TRACK_POINTS), track@),
{
    let budget: usize = match max_points {
        Some(m) => m,
        None => DEFAULT_TRACK_POINTS,
    };
    decimate_track(stored, budget)
}

} // verus!

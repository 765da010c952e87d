//! From a decoded flight log to the rows of an import: the samples with their
//! timestamps, the figures derived from them and the flight's metadata.
//!
//! Decoding the log file is the caller's part; this module takes the decoded
//! frames and details as plain values.

use crate::aggregate::present;
use crate::clock::{format_stamp, has_calendar_date, utc_stamp};
use crate::database::Database;
use crate::hashing::{calculate_file_hash, content_hash};
use crate::models::{FlightMetadata, FlightStats, TelemetryPoint};
use crate::registry::{flights_with_hash, has_hash, lemma_registered_once, same_hash};
use crate::sequences::{lemma_filter_ends, lemma_filter_step};
use crate::series::clone_point;
use crate::text::{has_prefix, is_blank, is_blank_text, join, starts_with};
use crate::track::positions;
use vstd::prelude::*;

verus! {

/// What reading a log fails with.
#[derive(Debug, Clone)]
pub enum ParserError {
    /// The file could not be read.
    Io(String),
    /// The file is no flight log.
    Parse(String),
    /// A flight with this content is registered.
    AlreadyImported,
    /// The log holds no sample with a position.
    NoTelemetryData,
    /// The log is encrypted and no key is at hand to ask for its keys.
    EncryptionKeyRequired,
    /// The key service refused or could not be reached.
    Api(String),
}

/// The text of an error.
pub open spec fn parser_error_text(error: ParserError) -> Seq<char> {
    match error {
        ParserError::Io(reason) => "IO error: "@ + reason@,
        ParserError::Parse(reason) => "Parse error: "@ + reason@,
        ParserError::AlreadyImported => "File already imported"@,
        ParserError::NoTelemetryData => "No valid telemetry data found"@,
        ParserError::EncryptionKeyRequired => "Encryption key required for V13+ logs"@,
        ParserError::Api(reason) => "API error: "@ + reason@,
    }
}

impl ParserError {
    /// Writes the error as a text for the user.
    pub fn message(&self) -> (text: String)
        ensures
            text@ == parser_error_text(*self),
    {
        match self {
            ParserError::Io(reason) => join("IO error: ", reason.as_str()),
            ParserError::Parse(reason) => join("Parse error: ", reason.as_str()),
            ParserError::AlreadyImported => String::from_str("File already imported"),
            ParserError::NoTelemetryData => String::from_str("No valid telemetry data found"),
            ParserError::EncryptionKeyRequired => String::from_str(
                "Encryption key required for V13+ logs",
            ),
            ParserError::Api(reason) => join("API error: ", reason.as_str()),
        }
    }
}

/// The rows of one import.
#[derive(Debug, Clone)]
pub struct ParseResult<V> {
    pub metadata: FlightMetadata<V>,
    pub points: Vec<TelemetryPoint<V>>,
}

/// One decoded frame of a log.
#[derive(Debug, Clone)]
pub struct FrameSample<V> {
    /// The flight time of the frame in milliseconds, where it has a positive
    /// one.
    pub fly_time_ms: Option<i64>,
    /// What the frame measured; its timestamp is not read.
    pub reading: TelemetryPoint<V>,
}

/// What a decoded log says of the flight as a whole.
#[derive(Debug, Clone)]
pub struct LogDetails {
    /// The name of the log file, where it has one that is text.
    pub file_name: Option<String>,
    /// The name of the log file without its extension.
    pub file_stem: Option<String>,
    /// The product type, as the decoder names it.
    pub product_type: String,
    pub aircraft_sn: String,
    pub aircraft_name: String,
    pub battery_sn: String,
    /// The start of the flight in milliseconds since the Unix epoch.
    pub start_time: i64,
    /// The length of the flight in milliseconds.
    pub total_time_ms: i64,
}

/// Where the frames of a log come from.
#[derive(Debug, Clone, Copy, PartialEq, Eq, Structural)]
pub enum FrameSource {
    /// The log is not encrypted.
    Plain,
    /// The log is encrypted: its keys are fetched first.
    Keychains,
}

/// The first log version that is encrypted.
pub const ENCRYPTED_SINCE: u8 = 13;

/// The time from one frame to the next where the log gives none.
pub const FRAME_INTERVAL_MS: i64 = 100;

/// The time after `timestamp_ms` by one frame interval, held at the latest
/// time there is.
pub open spec fn next_frame_time(timestamp_ms: int) -> int {
    if timestamp_ms + FRAME_INTERVAL_MS > i64::MAX {
        i64::MAX as int
    } else {
        timestamp_ms + FRAME_INTERVAL_MS
    }
}

/// The timestamp of the frame at `i`: its flight time where it has one, else
/// one frame interval after the frame before it, and zero for the first.
pub open spec fn frame_time<V>(frames: Seq<FrameSample<V>>, i: int) -> int
    decreases i,
{
    match frames[i].fly_time_ms {
        Some(t) => t as int,
        None => if i <= 0 {
            0
        } else {
            next_frame_time(frame_time(frames, i - 1))
        },
    }
}

/// The sample of the frame at `i`: its reading at its timestamp.
pub open spec fn stamped<V>(frames: Seq<FrameSample<V>>, i: int) -> TelemetryPoint<V> {
    TelemetryPoint { timestamp_ms: frame_time(frames, i) as i64, ..frames[i].reading }
}

/// The sample of every frame, in order.
pub open spec fn stamped_frames<V>(frames: Seq<FrameSample<V>>) -> Seq<TelemetryPoint<V>> {
    Seq::new(frames.len(), |i: int| stamped(frames, i))
}

/// The samples of a log: the sample of each frame that has a position, in
/// order.
pub open spec fn extracted<V>(frames: Seq<FrameSample<V>>) -> Seq<TelemetryPoint<V>> {
    stamped_frames(frames).filter(|p: TelemetryPoint<V>| p.has_position())
}

/// The altitude that counts for a sample: its height, else its altitude.
pub open spec fn altitude_of<V>(p: TelemetryPoint<V>) -> Option<V> {
    if p.height is Some {
        p.height
    } else {
        p.altitude
    }
}

/// The altitude that counts for each sample, in order.
pub open spec fn altitude_column<V>(points: Seq<TelemetryPoint<V>>) -> Seq<Option<V>> {
    Seq::new(points.len(), |i: int| altitude_of(points[i]))
}

/// The speed of each sample, in order.
pub open spec fn speed_column<V>(points: Seq<TelemetryPoint<V>>) -> Seq<Option<V>> {
    Seq::new(points.len(), |i: int| points[i].speed)
}

/// The battery charge of each sample, in order.
pub open spec fn battery_column<V>(points: Seq<TelemetryPoint<V>>) -> Seq<Option<i32>> {
    Seq::new(points.len(), |i: int| points[i].battery_percent)
}

/// Longitude and latitude of a sample that has both.
pub open spec fn fix_of<V>(p: TelemetryPoint<V>) -> Seq<V> {
    seq![p.longitude->0, p.latitude->0]
}

/// Longitude and latitude of each sample that has both, in order.
pub open spec fn fixes_of<V>(points: Seq<TelemetryPoint<V>>) -> Seq<Seq<V>> {
    positions(points).map_values(|p: TelemetryPoint<V>| fix_of(p))
}

/// The time of the last sample, and zero where there is none.
pub open spec fn duration_of<V>(points: Seq<TelemetryPoint<V>>) -> int {
    if points.len() == 0 {
        0
    } else {
        points.last().timestamp_ms as int
    }
}

/// `least` is the least of `values`, and zero where there is none.
pub open spec fn is_least(values: Seq<i32>, least: i32) -> bool {
    if values.len() == 0 {
        least == 0
    } else {
        values.contains(least) && forall|i: int| 0 <= i < values.len() ==> least <= values[i]
    }
}

/// What the figures of a flight are computed from.
#[derive(Debug, Clone)]
pub struct FlightDigest<V> {
    /// The time of the last sample in milliseconds, and zero where there is
    /// none.
    pub duration_ms: i64,
    /// The altitude of each sample that has one: its height, else its
    /// altitude.
    pub altitudes: Vec<V>,
    /// The speed of each sample that has one.
    pub speeds: Vec<V>,
    /// Longitude and latitude of each sample that has both, in order.
    pub fixes: Vec<[V; 2]>,
}

/// The figures of a flight that take arithmetic on measurements.
#[derive(Debug, Clone)]
pub struct FlightFigures<V> {
    pub duration_secs: V,
    pub total_distance_m: V,
    pub max_altitude_m: V,
    pub max_speed_ms: V,
    pub avg_speed_ms: V,
}

/// `digest` is the digest of `points`.
pub open spec fn is_digest_of<V>(points: Seq<TelemetryPoint<V>>, digest: FlightDigest<V>) -> bool {
    &&& digest.duration_ms == duration_of(points)
    &&& digest.altitudes@ == present(altitude_column(points))
    &&& digest.speeds@ == present(speed_column(points))
    &&& digest.fixes@.len() == fixes_of(points).len()
    &&& forall|k: int|
        0 <= k < digest.fixes@.len() ==> (#[trigger] digest.fixes@[k])@ == fixes_of(points)[k]
}

/// `measure` may be called on every digest.
pub open spec fn measures_all<V, M: Fn(FlightDigest<V>) -> FlightFigures<V>>(measure: M) -> bool {
    forall|d: FlightDigest<V>| call_requires(measure, (d,))
}

/// `stats` are the statistics of `points`: the least battery charge and the
/// first position as they are, the other figures as `measure` gave them for
/// the digest of `points`.
pub open spec fn is_stats_of<V, M: Fn(FlightDigest<V>) -> FlightFigures<V>>(
    points: Seq<TelemetryPoint<V>>,
    stats: FlightStats<V>,
    measure: M,
) -> bool {
    &&& is_least(present(battery_column(points)), stats.min_battery)
    &&& if fixes_of(points).len() == 0 {
        stats.home_location is None
    } else {
        stats.home_location matches Some(home) && home@ == fixes_of(points)[0]
    }
    &&& exists|digest: FlightDigest<V>, figures: FlightFigures<V>|
        {
            &&& #[trigger] is_digest_of(points, digest)
            &&& #[trigger] call_ensures(measure, (digest,), figures)
            &&& stats.duration_secs == figures.duration_secs
            &&& stats.total_distance_m == figures.total_distance_m
            &&& stats.max_altitude_m == figures.max_altitude_m
            &&& stats.max_speed_ms == figures.max_speed_ms
            &&& stats.avg_speed_ms == figures.avg_speed_ms
        }
}

/// The text, unless it is empty or white space only.
pub open spec fn unless_blank(text: String) -> Option<String> {
    if is_blank(text@) {
        None
    } else {
        Some(text)
    }
}

/// The drone model that a product type names, unless the decoder does not
/// know it.
pub open spec fn model_of(product_type: String) -> Option<String> {
    if has_prefix(product_type@, "Unknown"@) {
        None
    } else {
        Some(product_type)
    }
}

/// The end of a flight that starts at `start_time` and takes `total_time_ms`,
/// where it can be written down.
pub open spec fn end_of(start_time: i64, total_time_ms: i64) -> Option<i64> {
    if i64::MIN <= start_time + total_time_ms <= i64::MAX {
        Some((start_time + total_time_ms) as i64)
    } else {
        None
    }
}

/// The name that a file is listed under: `"unknown"` where it has none.
pub open spec fn file_name_of(details: LogDetails) -> Seq<char> {
    match details.file_name {
        Some(name) => name@,
        None => "unknown"@,
    }
}

/// The name that a flight is shown under at first: the file name without its
/// extension, and the file name where that is blank.
pub open spec fn display_name_of(details: LogDetails) -> Seq<char> {
    match details.file_stem {
        Some(stem) => if is_blank(stem@) {
            file_name_of(details)
        } else {
            stem@
        },
        None => file_name_of(details),
    }
}

/// A number of samples as a point count: held at the largest there is.
pub open spec fn point_count_of(samples: nat) -> i32 {
    if samples > i32::MAX {
        i32::MAX
    } else {
        samples as i32
    }
}

/// `metadata` is the row of a flight with the content hash `hash`, the
/// details `details`, the samples `points` and the statistics `stats`,
/// imported at `now_ms`.
pub open spec fn is_metadata_of<V>(
    hash: Seq<char>,
    details: LogDetails,
    points: Seq<TelemetryPoint<V>>,
    stats: FlightStats<V>,
    now_ms: i64,
    metadata: FlightMetadata<V>,
) -> bool {
    &&& metadata.id == now_ms % 1_000_000_000_000
    &&& metadata.file_name@ == file_name_of(details)
    &&& metadata.display_name@ == display_name_of(details)
    &&& metadata.file_hash matches Some(h) && h@ == hash
    &&& metadata.drone_model == model_of(details.product_type)
    &&& metadata.drone_serial == unless_blank(details.aircraft_sn)
    &&& metadata.aircraft_name == unless_blank(details.aircraft_name)
    &&& metadata.battery_serial == unless_blank(details.battery_sn)
    &&& metadata.start_time == Some(details.start_time)
    &&& metadata.end_time == end_of(details.start_time, details.total_time_ms)
    &&& metadata.duration_secs == Some(stats.duration_secs)
    &&& metadata.total_distance == Some(stats.total_distance_m)
    &&& metadata.max_altitude == Some(stats.max_altitude_m)
    &&& metadata.max_speed == Some(stats.max_speed_ms)
    &&& match stats.home_location {
        Some(home) => metadata.home_lat == Some(home@[1]) && metadata.home_lon == Some(home@[0]),
        None => metadata.home_lat is None && metadata.home_lon is None,
    }
    &&& metadata.point_count == point_count_of(points.len())
}

/// `answer` is what parsing owes for a log with the content `content`, the
/// details `details` and the frames `frames`, where `flights` are registered.
///
/// Content that is registered is refused. A log without a frame that has a
/// position holds no telemetry. Any other gives its samples and its row.
pub open spec fn is_parse_answer<V, M: Fn(FlightDigest<V>) -> FlightFigures<V>>(
    flights: Seq<FlightMetadata<V>>,
    content: Seq<u8>,
    details: LogDetails,
    frames: Seq<FrameSample<V>>,
    now_ms: i64,
    answer: Result<ParseResult<V>, ParserError>,
    measure: M,
) -> bool {
    if has_hash(flights, content_hash(content)) {
        answer matches Err(e) && e is AlreadyImported
    } else if extracted(frames).len() == 0 {
        answer matches Err(e) && e is NoTelemetryData
    } else {
        &&& answer matches Ok(parsed)
        &&& parsed.points@ == extracted(frames)
        &&& exists|stats: FlightStats<V>|
            {
                &&& #[trigger] is_stats_of(parsed.points@, stats, measure)
                &&& is_metadata_of(
                    content_hash(content),
                    details,
                    parsed.points@,
                    stats,
                    now_ms,
                    parsed.metadata,
                )
            }
    }
}

/// Content is imported once.
///
/// After a flight with the content `content`, which was not registered, is
/// registered, parsing a log with the same content is refused as already
/// imported, whatever the log holds; and exactly one registered flight has
/// that content.
pub proof fn lemma_second_import_is_detected<V, M: Fn(FlightDigest<V>) -> FlightFigures<V>>(
    flights: Seq<FlightMetadata<V>>,
    first: FlightMetadata<V>,
    content: Seq<u8>,
    details: LogDetails,
    frames: Seq<FrameSample<V>>,
    now_ms: i64,
    answer: Result<ParseResult<V>, ParserError>,
    measure: M,
)
    requires
        !has_hash(flights, content_hash(content)),
        same_hash(first.file_hash, content_hash(content)),
        is_parse_answer(flights.push(first), content, details, frames, now_ms, answer, measure),
    ensures
        answer is Err,
        answer->Err_0 is AlreadyImported,
        flights_with_hash(flights.push(first), content_hash(content)) == 1,
{
    lemma_registered_once(flights, first, content_hash(content));
}

/// Decides where the frames of a log of the version `version` come from.
///
/// A log of version 13 or later is encrypted; without a key to the key
/// service its frames cannot be had.
pub fn frame_source(version: u8, has_api_key: bool) -> (source: Result<FrameSource, ParserError>)
    ensures
        version < ENCRYPTED_SINCE ==> (source matches Ok(s) && s == FrameSource::Plain),
        version >= ENCRYPTED_SINCE && has_api_key ==> (source matches Ok(s) && s
            == FrameSource::Keychains),
        version >= ENCRYPTED_SINCE && !has_api_key ==> (source matches Err(e)
            && e is EncryptionKeyRequired),
{
    if version >= ENCRYPTED_SINCE {
        if has_api_key {
            Ok(FrameSource::Keychains)
        } else {
            Err(ParserError::EncryptionKeyRequired)
        }
    } else {
        Ok(FrameSource::Plain)
    }
}

/// Gives each frame its timestamp and keeps the frames that have a position.
///
/// A frame with a flight time has it as its timestamp. One without follows
/// the frame before it by one frame interval; the first starts at zero.
pub fn extract_telemetry<V: Copy>(frames: &Vec<FrameSample<V>>) -> (points: Vec<TelemetryPoint<V>>)
    ensures
        points@ == extracted(frames@),
{
    let mut points: Vec<TelemetryPoint<V>> = Vec::new();
    let mut next: i64 = 0;
    let mut i: usize = 0;
    let ghost all = stamped_frames(frames@);
    let ghost located = |p: TelemetryPoint<V>| p.has_position();
    proof {
        lemma_filter_ends(all, located);
    }
    while i < frames.len()
        invariant
            i <= frames@.len(),
            all == stamped_frames(frames@),
            located == |p: TelemetryPoint<V>| p.has_position(),
            points@ == all.take(i as int).filter(located),
            i == 0 ==> next == 0,
            i > 0 ==> next == next_frame_time(frame_time(frames@, i - 1)),
        decreases frames@.len() - i,
    {
        let current: i64 = match frames[i].fly_time_ms {
            Some(t) => t,
            None => next,
        };
        assert(current == frame_time(frames@, i as int));
        proof {
            lemma_filter_step(all, located, i as int);
        }
        let reading = &frames[i].reading;
        if reading.latitude.is_some() && reading.longitude.is_some() {
            let point = TelemetryPoint { timestamp_ms: current, ..clone_point(reading) };
            assert(point == stamped(frames@, i as int));
            points.push(point);
        }
        next = if current > i64::MAX - FRAME_INTERVAL_MS {
            i64::MAX
        } else {
            current + FRAME_INTERVAL_MS
        };
        i += 1;
    }
    points
}

/// Finds the least battery charge of `points`, and zero where none has one.
pub fn min_battery<V>(points: &Vec<TelemetryPoint<V>>) -> (least: i32)
    ensures
        is_least(present(battery_column(points@)), least),
{
    let mut least: Option<i32> = None;
    let mut i: usize = 0;
    assert(battery_column(points@).take(0) =~= Seq::<Option<i32>>::empty());
    while i < points.len()
        invariant
            i <= points@.len(),
            match least {
                Some(m) => present(battery_column(points@).take(i as int)).len() > 0 && is_least(
                    present(battery_column(points@).take(i as int)),
                    m,
                ),
                None => present(battery_column(points@).take(i as int)).len() == 0,
            },
        decreases points@.len() - i,
    {
        let ghost before = present(battery_column(points@).take(i as int));
        proof {
            assert(battery_column(points@).take(i + 1).drop_last() =~= battery_column(points@).take(
                i as int,
            ));
            assert(battery_column(points@).take(i + 1).last() == points@[i as int].battery_percent);
        }
        match points[i].battery_percent {
            Some(b) => {
                let ghost after = before.push(b);
                let keep: i32 = match least {
                    Some(m) => if b < m {
                        b
                    } else {
                        m
                    },
                    None => b,
                };
                proof {
                    assert(after[after.len() - 1] == b);
                    if least is Some && keep == least->0 {
                        let k = choose|k: int| 0 <= k < before.len() && before[k] == keep;
                        assert(after[k] == keep);
                    }
                    assert forall|j: int| 0 <= j < after.len() implies keep <= after[j] by {
                        if j < before.len() {
                            assert(after[j] == before[j]);
                        }
                    }
                }
                least = Some(keep);
            },
            None => {},
        }
        i += 1;
    }
    assert(battery_column(points@).take(points@.len() as int) =~= battery_column(points@));
    match least {
        Some(m) => m,
        None => 0,
    }
}

/// Gathers the altitudes that count, of the samples that have one.
fn altitudes<V: Copy>(points: &Vec<TelemetryPoint<V>>) -> (values: Vec<V>)
    ensures
        values@ == present(altitude_column(points@)),
{
    let mut values: Vec<V> = Vec::new();
    let mut i: usize = 0;
    assert(altitude_column(points@).take(0) =~= Seq::<Option<V>>::empty());
    while i < points.len()
        invariant
            i <= points@.len(),
            values@ == present(altitude_column(points@).take(i as int)),
        decreases points@.len() - i,
    {
        proof {
            assert(altitude_column(points@).take(i + 1).drop_last() =~= altitude_column(
                points@,
            ).take(i as int));
            assert(altitude_column(points@).take(i + 1).last() == altitude_of(points@[i as int]));
        }
        let chosen: Option<V> = match points[i].height {
            Some(h) => Some(h),
            None => points[i].altitude,
        };
        match chosen {
            Some(v) => {
                values.push(v);
            },
            None => {},
        }
        i += 1;
    }
    assert(altitude_column(points@).take(points@.len() as int) =~= altitude_column(points@));
    values
}

/// Gathers the speeds of the samples that have one.
fn speeds<V: Copy>(points: &Vec<TelemetryPoint<V>>) -> (values: Vec<V>)
    ensures
        values@ == present(speed_column(points@)),
{
    let mut values: Vec<V> = Vec::new();
    let mut i: usize = 0;
    assert(speed_column(points@).take(0) =~= Seq::<Option<V>>::empty());
    while i < points.len()
        invariant
            i <= points@.len(),
            values@ == present(speed_column(points@).take(i as int)),
        decreases points@.len() - i,
    {
        proof {
            assert(speed_column(points@).take(i + 1).drop_last() =~= speed_column(points@).take(
                i as int,
            ));
            assert(speed_column(points@).take(i + 1).last() == points@[i as int].speed);
        }
        match points[i].speed {
            Some(v) => {
                values.push(v);
            },
            None => {},
        }
        i += 1;
    }
    assert(speed_column(points@).take(points@.len() as int) =~= speed_column(points@));
    values
}

/// Gathers longitude and latitude of the samples that have both.
fn fixes<V: Copy>(points: &Vec<TelemetryPoint<V>>) -> (found: Vec<[V; 2]>)
    ensures
        found@.len() == fixes_of(points@).len(),
        forall|k: int| 0 <= k < found@.len() ==> (#[trigger] found@[k])@ == fixes_of(points@)[k],
{
    let mut found: Vec<[V; 2]> = Vec::new();
    let mut i: usize = 0;
    let ghost located = |p: TelemetryPoint<V>| p.has_position();
    proof {
        lemma_filter_ends(points@, located);
    }
    while i < points.len()
        invariant
            i <= points@.len(),
            located == |p: TelemetryPoint<V>| p.has_position(),
            found@.len() == points@.take(i as int).filter(located).len(),
            forall|k: int|
                0 <= k < found@.len() ==> (#[trigger] found@[k])@ == fix_of(
                    points@.take(i as int).filter(located)[k],
                ),
        decreases points@.len() - i,
    {
        proof {
            lemma_filter_step(points@, located, i as int);
        }
        match (points[i].longitude, points[i].latitude) {
            (Some(lon), Some(lat)) => {
                let fix: [V; 2] = [lon, lat];
                assert(fix@ =~= fix_of(points@[i as int]));
                found.push(fix);
            },
            _ => {},
        }
        i += 1;
    }
    found
}

/// Derives the statistics of a flight from its samples.
///
/// The least battery charge and the first position are read off the samples.
/// The figures that take arithmetic on measurements are what `measure` gives
/// for the digest of the samples.
pub fn calculate_stats<V: Copy, M: Fn(FlightDigest<V>) -> FlightFigures<V>>(
    points: &Vec<TelemetryPoint<V>>,
    measure: &M,
) -> (stats: FlightStats<V>)
    requires
        measures_all(*measure),
    ensures
        is_stats_of(points@, stats, *measure),
{
    let duration_ms: i64 = if points.len() == 0 {
        0
    } else {
        points[points.len() - 1].timestamp_ms
    };
    let found: Vec<[V; 2]> = fixes(points);
    let home_location: Option<[V; 2]> = if found.len() == 0 {
        None
    } else {
        let first: [V; 2] = found[0];
        Some(first)
    };
    let digest = FlightDigest {
        duration_ms,
        altitudes: altitudes(points),
        speeds: speeds(points),
        fixes: found,
    };
    let ghost held = digest;
    assert(is_digest_of(points@, held));
    let figures: FlightFigures<V> = measure(digest);
    assert(call_ensures(*measure, (held,), figures));
    FlightStats {
        duration_secs: figures.duration_secs,
        total_distance_m: figures.total_distance_m,
        max_altitude_m: figures.max_altitude_m,
        max_speed_ms: figures.max_speed_ms,
        avg_speed_ms: figures.avg_speed_ms,
        min_battery: min_battery(points),
        home_location,
    }
}

/// Gives the text, unless it is empty or white space only.
pub fn extract_text(text: &String) -> (kept: Option<String>)
    ensures
        kept == unless_blank(*text),
{
    if is_blank_text(text.as_str()) {
        None
    } else {
        Some(text.clone())
    }
}

/// Gives the drone model that a product type names, unless the decoder does
/// not know it.
pub fn extract_drone_model(product_type: &String) -> (model: Option<String>)
    ensures
        model == model_of(*product_type),
{
    if starts_with(product_type.as_str(), "Unknown") {
        None
    } else {
        Some(product_type.clone())
    }
}

/// Gives the end of a flight, where it can be written down.
pub fn extract_end_time(start_time: i64, total_time_ms: i64) -> (end: Option<i64>)
    ensures
        end == end_of(start_time, total_time_ms),
{
    start_time.checked_add(total_time_ms)
}

/// The name under which a log file is archived.
///
/// A file keeps its name, `unknown.log` where it has none. Where that name is
/// taken the file is archived under its stem, an underscore, the time and its
/// extension; a file without a stem has `log`, one without an extension
/// `txt`.
pub open spec fn archive_text(
    file_name: Option<Seq<char>>,
    stem: Option<Seq<char>>,
    extension: Option<Seq<char>>,
    taken: bool,
    stamp: Seq<char>,
) -> Seq<char> {
    if !taken {
        match file_name {
            Some(name) => name,
            None => "unknown.log"@,
        }
    } else {
        (match stem {
            Some(s) => s,
            None => "log"@,
        }) + "_"@ + stamp + "."@ + (match extension {
            Some(e) => e,
            None => "txt"@,
        })
    }
}

/// The characters of an optional text.
pub open spec fn text_of(text: Option<&str>) -> Option<Seq<char>> {
    match text {
        Some(t) => Some(t@),
        None => None,
    }
}

/// Names the archive copy of a log file; `taken` tells whether a file of its
/// name is archived, and `stamp` is the time of the copy.
pub fn archive_name(
    file_name: Option<&str>,
    stem: Option<&str>,
    extension: Option<&str>,
    taken: bool,
    stamp: &str,
) -> (name: String)
    ensures
        name@ == archive_text(text_of(file_name), text_of(stem), text_of(extension), taken, stamp@),
{
    if !taken {
        match file_name {
            Some(name) => String::from_str(name),
            None => String::from_str("unknown.log"),
        }
    } else {
        let stem_text: &str = match stem {
            Some(s) => s,
            None => "log",
        };
        let extension_text: &str = match extension {
            Some(e) => e,
            None => "txt",
        };
        let a: String = join(stem_text, "_");
        let b: String = join(a.as_str(), stamp);
        let c: String = join(b.as_str(), ".");
        join(c.as_str(), extension_text)
    }
}

/// Reads a log for the store `db`.
#[derive(Debug)]
pub struct LogParser<'a, V> {
    db: &'a Database<V>,
}

impl<'a, V: Copy> LogParser<'a, V> {
    /// Makes a parser for the store `db`.
    pub fn new(db: &'a Database<V>) -> (parser: Self)
        ensures
            parser.store() == *db,
    {
        LogParser { db }
    }

    /// The store that the parser reads for.
    pub closed spec fn store(&self) -> Database<V> {
        *self.db
    }

    /// Computes the content hash of a file from what it holds.
    pub fn calculate_file_hash(content: &[u8]) -> (hash: String)
        ensures
            hash@ == content_hash(content@),
    {
        calculate_file_hash(content)
    }

    /// Names the archive copy of a log file made `epoch_secs` seconds after
    /// the Unix epoch; `None` exactly where the name is taken and the time
    /// has no calendar date.
    pub fn archive_log_file(
        &self,
        file_name: Option<&str>,
        stem: Option<&str>,
        extension: Option<&str>,
        taken: bool,
        epoch_secs: i64,
    ) -> (name: Option<String>)
        ensures
            name is Some <==> !taken || has_calendar_date(epoch_secs),
            name matches Some(n) ==> n@ == archive_text(
                text_of(file_name),
                text_of(stem),
                text_of(extension),
                taken,
                utc_stamp(epoch_secs),
            ),
    {
        if !taken {
            Some(archive_name(file_name, stem, extension, false, ""))
        } else {
            match format_stamp(epoch_secs) {
                Some(stamp) => Some(
                    archive_name(file_name, stem, extension, true, stamp.as_str()),
                ),
                None => None,
            }
        }
    }

    /// Tells whether a flight with the content `content` is registered, and
    /// refuses the content if so.
    pub fn check_new(&self, content: &[u8]) -> (answer: Result<String, ParserError>)
        ensures
            match answer {
                Ok(hash) => hash@ == content_hash(content@) && !has_hash(
                    self.store().flights(),
                    content_hash(content@),
                ),
                Err(e) => e is AlreadyImported && has_hash(
                    self.store().flights(),
                    content_hash(content@),
                ),
            },
    {
        let hash: String = calculate_file_hash(content);
        match self.db.is_file_imported(hash.as_str()) {
            Ok(true) => Err(ParserError::AlreadyImported),
            _ => Ok(hash),
        }
    }

    /// Turns a decoded log into the rows of an import.
    ///
    /// `content` is what the log file holds, `details` and `frames` what the
    /// decoder found in it, and `now_ms` the time of the import in
    /// milliseconds since the Unix epoch, of which the flight's id is made.
    pub fn parse_log<M: Fn(FlightDigest<V>) -> FlightFigures<V>>(
        &self,
        content: &[u8],
        details: &LogDetails,
        frames: &Vec<FrameSample<V>>,
        now_ms: i64,
        measure: &M,
    ) -> (answer: Result<ParseResult<V>, ParserError>)
        requires
            now_ms >= 0,
            measures_all(*measure),
        ensures
            is_parse_answer(
                self.store().flights(),
                content@,
                *details,
                frames@,
                now_ms,
                answer,
                *measure,
            ),
    {
        let file_hash: String = match self.check_new(content) {
            Ok(hash) => hash,
            Err(e) => {
                return Err(e);
            },
        };
        let points: Vec<TelemetryPoint<V>> = extract_telemetry(frames);
        if points.len() == 0 {
            return Err(ParserError::NoTelemetryData);
        }
        let stats: FlightStats<V> = calculate_stats(&points, measure);
        let file_name: String = match &details.file_name {
            Some(name) => name.clone(),
            None => String::from_str("unknown"),
        };
        let display_name: String = match &details.file_stem {
            Some(stem) => if is_blank_text(stem.as_str()) {
                file_name.clone()
            } else {
                stem.clone()
            },
            None => file_name.clone(),
        };
        let (home_lat, home_lon): (Option<V>, Option<V>) = match stats.home_location {
            Some(home) => (Some(home[1]), Some(home[0])),
            None => (None, None),
        };
        let point_count: i32 = if points.len() > i32::MAX as usize {
            i32::MAX
        } else {
            points.len() as i32
        };
        let metadata = FlightMetadata {
            id: self.db.generate_flight_id(now_ms),
            file_name,
            display_name,
            file_hash: Some(file_hash),
            drone_model: extract_drone_model(&details.product_type),
            drone_serial: extract_text(&details.aircraft_sn),
            aircraft_name: extract_text(&details.aircraft_name),
            battery_serial: extract_text(&details.battery_sn),
            start_time: Some(details.start_time),
            end_time: extract_end_time(details.start_time, details.total_time_ms),
            duration_secs: Some(stats.duration_secs),
            total_distance: Some(stats.total_distance_m),
            max_altitude: Some(stats.max_altitude_m),
            max_speed: Some(stats.max_speed_ms),
            home_lat,
            home_lon,
            point_count,
        };
        assert(is_metadata_of(
            content_hash(content@),
            *details,
            points@,
            stats,
            now_ms,
            metadata,
        ));
        Ok(ParseResult { metadata, points })
    }
}

} // verus!

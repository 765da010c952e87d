//! The store: the flight registry, the stored samples of every flight and
//! the cache of decryption keys, with the operations on them.

use crate::aggregate::present;
use crate::downsample::{accepts_values, yields};
use crate::models::{Flight, FlightMetadata, OverviewStats, TelemetryPoint, TelemetryRecord};
use crate::query::{
    budget_or, flight_telemetry, flight_track, is_telemetry_answer, DEFAULT_TELEMETRY_POINTS,
    DEFAULT_TRACK_POINTS,
};
use crate::registry::{
    battery_usage, clone_flight, find_flight, has_flight, has_hash, hash_known, is_battery_usage,
    is_flight_list, lemma_listed_is_registered, list_flights, same_hash, sum_points,
    total_points, unique_hashes, unique_ids,
};
use crate::series::{is_merge, key_collision, merge_samples, samples_ascending};
use crate::text::{join, same_text, signed_decimal, signed_decimal_text, trim, trimmed};
use crate::track::is_track_of;
use std::collections::HashMap;
use vstd::prelude::*;
use vstd::std_specs::hash::*;

verus! {

/// Why the store refused or could not answer.
#[derive(Debug, Clone, Copy, PartialEq, Eq, Structural)]
pub enum StorageFailure {
    /// A flight with this id is registered.
    DuplicateFlightId,
    /// A flight with this content hash is registered.
    DuplicateFileHash,
    /// The flight has a sample with this timestamp.
    DuplicateTimestamp,
    /// A number that the answer needs does not fit in 64 bits.
    OutOfRange,
}

/// What an operation on the store fails with.
#[derive(Debug, Clone, Copy, PartialEq, Eq, Structural)]
pub enum DatabaseError {
    /// The store refused a row or could not answer a query.
    Storage(StorageFailure),
    /// A display name was empty or held white space only.
    InvalidName,
    /// The flight has no samples.
    FlightNotFound(i64),
}

/// The text of an error.
pub open spec fn error_text(error: DatabaseError) -> Seq<char> {
    match error {
        DatabaseError::Storage(StorageFailure::DuplicateFlightId) => {
            "Storage error: a flight with this id exists"@
        },
        DatabaseError::Storage(StorageFailure::DuplicateFileHash) => {
            "Storage error: a flight with this file hash exists"@
        },
        DatabaseError::Storage(StorageFailure::DuplicateTimestamp) => {
            "Storage error: the flight has a sample with this timestamp"@
        },
        DatabaseError::Storage(StorageFailure::OutOfRange) => {
            "Storage error: value out of range"@
        },
        DatabaseError::InvalidName => "Display name cannot be empty"@,
        DatabaseError::FlightNotFound(id) => "Flight not found: "@ + signed_decimal(id as int),
    }
}

impl DatabaseError {
    /// Writes the error as a text for the user.
    pub fn message(&self) -> (text: String)
        ensures
            text@ == error_text(*self),
    {
        match self {
            DatabaseError::Storage(StorageFailure::DuplicateFlightId) => String::from_str(
                "Storage error: a flight with this id exists",
            ),
            DatabaseError::Storage(StorageFailure::DuplicateFileHash) => String::from_str(
                "Storage error: a flight with this file hash exists",
            ),
            DatabaseError::Storage(StorageFailure::DuplicateTimestamp) => String::from_str(
                "Storage error: the flight has a sample with this timestamp",
            ),
            DatabaseError::Storage(StorageFailure::OutOfRange) => String::from_str(
                "Storage error: value out of range",
            ),
            DatabaseError::InvalidName => String::from_str("Display name cannot be empty"),
            DatabaseError::FlightNotFound(id) => join(
                "Flight not found: ",
                signed_decimal_text(*id).as_str(),
            ),
        }
    }
}

/// A cached decryption key of one device.
#[derive(Debug, Clone)]
pub struct KeychainEntry {
    pub serial_number: String,
    pub encryption_key: String,
    /// When the key was last fetched, in milliseconds since the Unix epoch.
    pub fetched_at: i64,
}

/// No two of `entries` are for one device.
pub open spec fn unique_serials(entries: Seq<KeychainEntry>) -> bool {
    forall|i: int, j: int|
        0 <= i < j < entries.len() ==> (#[trigger] entries[i]).serial_number@
            != (#[trigger] entries[j]).serial_number@
}

/// The cache as a map from a device's serial number to its key and the time
/// the key was fetched.
pub open spec fn keychain_map(entries: Seq<KeychainEntry>) -> Map<Seq<char>, (Seq<char>, i64)>
    decreases entries.len(),
{
    if entries.len() == 0 {
        Map::empty()
    } else {
        keychain_map(entries.drop_last()).insert(
            entries.last().serial_number@,
            (entries.last().encryption_key@, entries.last().fetched_at),
        )
    }
}

/// The measurement that each flight holds in one field, in order.
pub open spec fn distance_series<V>(flights: Seq<FlightMetadata<V>>) -> Seq<Option<V>> {
    Seq::new(flights.len(), |i: int| flights[i].total_distance)
}

/// The duration that each flight holds, in order.
pub open spec fn duration_series<V>(flights: Seq<FlightMetadata<V>>) -> Seq<Option<V>> {
    Seq::new(flights.len(), |i: int| flights[i].duration_secs)
}

/// `op` may be called on every list of values, the empty one too.
pub open spec fn accepts_all<V, F: Fn(Vec<V>) -> V>(op: F) -> bool {
    forall|xs: Vec<V>| call_requires(op, (xs,))
}

/// `answer` is what an overview owes for `flights`: the number of flights,
/// the `sum` of their distances and of their durations, the sum of their
/// point counts and the battery histogram, unless a count does not fit.
pub open spec fn is_overview<V, F: Fn(Vec<V>) -> V>(
    flights: Seq<FlightMetadata<V>>,
    answer: Result<OverviewStats<V>, DatabaseError>,
    sum: F,
) -> bool {
    if flights.len() > i64::MAX || total_points(flights) < i64::MIN || total_points(flights)
        > i64::MAX {
        answer == Err::<OverviewStats<V>, DatabaseError>(
            DatabaseError::Storage(StorageFailure::OutOfRange),
        )
    } else {
        &&& answer matches Ok(stats)
        &&& stats.total_flights == flights.len()
        &&& stats.total_points == total_points(flights)
        &&& yields(sum, present(distance_series(flights)), stats.total_distance_m)
        &&& yields(sum, present(duration_series(flights)), stats.total_duration_secs)
        &&& is_battery_usage(flights, stats.batteries_used@)
    }
}

/// `after` is `before` with the flight `id`, if there is one, named `name`.
pub open spec fn is_renamed<V>(
    before: Seq<FlightMetadata<V>>,
    id: i64,
    name: Seq<char>,
    after: Seq<FlightMetadata<V>>,
) -> bool {
    &&& after.len() == before.len()
    &&& forall|i: int|
        0 <= i < before.len() ==> if before[i].id == id {
            &&& (#[trigger] after[i]).display_name@ == name
            &&& after[i] == FlightMetadata { display_name: after[i].display_name, ..before[i] }
        } else {
            after[i] == before[i]
        }
}

/// `after` is `before` without the flight `id`.
pub open spec fn is_without<V>(
    before: Seq<FlightMetadata<V>>,
    id: i64,
    after: Seq<FlightMetadata<V>>,
) -> bool {
    if has_flight(before, id) {
        exists|k: int| 0 <= k < before.len() && (#[trigger] before[k]).id == id && after == before.remove(k)
    } else {
        after == before
    }
}

/// A flight that was removed is gone: it is not registered, and no flight
/// list shows it.
pub proof fn lemma_deleted_flight_is_gone<V>(
    before: Seq<FlightMetadata<V>>,
    flight_id: i64,
    after: Seq<FlightMetadata<V>>,
    list: Seq<Flight<V>>,
)
    requires
        unique_ids(before),
        is_without(before, flight_id, after),
        is_flight_list(after, list),
    ensures
        !has_flight(after, flight_id),
        forall|k: int| 0 <= k < list.len() ==> (#[trigger] list[k]).id != flight_id,
{
    if has_flight(before, flight_id) {
        let k = choose|k: int|
            0 <= k < before.len() && (#[trigger] before[k]).id == flight_id && after
                == before.remove(k);
        assert forall|i: int| 0 <= i < after.len() implies (#[trigger] after[i]).id
            != flight_id by {
            if i < k {
                assert(after[i] == before[i]);
                assert(before[i].id != before[k].id);
            } else {
                assert(after[i] == before[i + 1]);
                assert(before[k].id != before[i + 1].id);
            }
        }
    }
    assert forall|k: int| 0 <= k < list.len() implies (#[trigger] list[k]).id != flight_id by {
        lemma_listed_is_registered(after, list, k);
    }
}

/// The overview of an empty registry: no flights, no points, no batteries,
/// and for the totals of distance and duration what `sum` gives for the
/// empty list.
pub proof fn lemma_empty_overview<V, F: Fn(Vec<V>) -> V>(
    flights: Seq<FlightMetadata<V>>,
    answer: Result<OverviewStats<V>, DatabaseError>,
    sum: F,
)
    requires
        flights.len() == 0,
        is_overview(flights, answer, sum),
    ensures
        answer is Ok,
        answer->Ok_0.total_flights == 0,
        answer->Ok_0.total_points == 0,
        answer->Ok_0.batteries_used@.len() == 0,
        yields(sum, Seq::<V>::empty(), answer->Ok_0.total_distance_m),
        yields(sum, Seq::<V>::empty(), answer->Ok_0.total_duration_secs),
{
    let stats = answer->Ok_0;
    assert(distance_series(flights) =~= Seq::<Option<V>>::empty());
    assert(duration_series(flights) =~= Seq::<Option<V>>::empty());
    if stats.batteries_used@.len() > 0 {
        assert(stats.batteries_used@[0].flight_count > 0);
    }
}

/// The store.
#[derive(Debug)]
pub struct Database<V> {
    flights: Vec<FlightMetadata<V>>,
    telemetry: HashMap<i64, Vec<TelemetryPoint<V>>>,
    keychains: Vec<KeychainEntry>,
}

impl<V> Database<V> {
    /// The registered flights, in the order of their registration.
    pub closed spec fn flights(&self) -> Seq<FlightMetadata<V>> {
        self.flights@
    }

    /// The stored samples of the flight `flight_id`, in ascending order.
    pub closed spec fn telemetry(&self, flight_id: i64) -> Seq<TelemetryPoint<V>> {
        if self.telemetry@.contains_key(flight_id) {
            self.telemetry@[flight_id]@
        } else {
            Seq::empty()
        }
    }

    /// The cached keys, by serial number.
    pub closed spec fn keychain(&self) -> Map<Seq<char>, (Seq<char>, i64)> {
        keychain_map(self.keychains@)
    }

    /// No id, no content hash and no serial number is held twice, and the
    /// samples of every flight strictly ascend.
    #[verifier::type_invariant]
    spec fn well_formed(&self) -> bool {
        &&& unique_ids(self.flights@)
        &&& unique_hashes(self.flights@)
        &&& forall|id: i64|
            self.telemetry@.contains_key(id) ==> samples_ascending(#[trigger] self.telemetry@[id]@)
        &&& unique_serials(self.keychains@)
    }
}

proof fn lemma_push_keeps_unique<V>(flights: Seq<FlightMetadata<V>>, flight: FlightMetadata<V>)
    requires
        unique_ids(flights),
        unique_hashes(flights),
        !has_flight(flights, flight.id),
        flight.file_hash is Some ==> !has_hash(flights, flight.file_hash->0@),
    ensures
        unique_ids(flights.push(flight)),
        unique_hashes(flights.push(flight)),
{
    let after = flights.push(flight);
    assert forall|i: int, j: int| 0 <= i < j < after.len() implies #[trigger] after[i].id
        != #[trigger] after[j].id by {
        if j == flights.len() {
            assert(flights[i].id != flight.id);
        } else {
            assert(flights[i].id != flights[j].id);
        }
    }
    assert forall|i: int, j: int|
        0 <= i < j < after.len() && (#[trigger] after[i]).file_hash is Some implies !same_hash(
        (#[trigger] after[j]).file_hash,
        after[i].file_hash->0@,
    ) by {
        if j == flights.len() {
            if flight.file_hash is Some {
                assert(!same_hash(flights[i].file_hash, flight.file_hash->0@));
            }
        } else {
            assert(!same_hash(flights[j].file_hash, flights[i].file_hash->0@));
        }
    }
}

proof fn lemma_remove_keeps_unique<V>(flights: Seq<FlightMetadata<V>>, k: int)
    requires
        unique_ids(flights),
        unique_hashes(flights),
        0 <= k < flights.len(),
    ensures
        unique_ids(flights.remove(k)),
        unique_hashes(flights.remove(k)),
        !has_flight(flights.remove(k), flights[k].id),
{
    let after = flights.remove(k);
    let at = |i: int|
        if i < k {
            i
        } else {
            i + 1
        };
    assert(forall|i: int| 0 <= i < after.len() ==> after[i] == flights[at(i)]);
    assert forall|i: int, j: int| 0 <= i < j < after.len() implies #[trigger] after[i].id
        != #[trigger] after[j].id by {
        assert(flights[at(i)].id != flights[at(j)].id);
    }
    assert forall|i: int, j: int|
        0 <= i < j < after.len() && (#[trigger] after[i]).file_hash is Some implies !same_hash(
        (#[trigger] after[j]).file_hash,
        after[i].file_hash->0@,
    ) by {
        assert(!same_hash(flights[at(j)].file_hash, flights[at(i)].file_hash->0@));
    }
    assert forall|i: int| 0 <= i < after.len() implies (#[trigger] after[i]).id
        != flights[k].id by {
        if at(i) < k {
            assert(flights[at(i)].id != flights[k].id);
        } else {
            assert(flights[k].id != flights[at(i)].id);
        }
    }
}

proof fn lemma_keychain_map(entries: Seq<KeychainEntry>)
    requires
        unique_serials(entries),
    ensures
        forall|k: int|
            0 <= k < entries.len() ==> {
                &&& keychain_map(entries).contains_key((#[trigger] entries[k]).serial_number@)
                &&& keychain_map(entries)[entries[k].serial_number@] == (
                    entries[k].encryption_key@,
                    entries[k].fetched_at,
                )
            },
        forall|s: Seq<char>| #[trigger]
            keychain_map(entries).contains_key(s) ==> exists|k: int|
                0 <= k < entries.len() && (#[trigger] entries[k]).serial_number@ == s,
    decreases entries.len(),
{
    if entries.len() > 0 {
        let front = entries.drop_last();
        let last = entries.len() - 1;
        assert(forall|i: int| 0 <= i < front.len() ==> front[i] == entries[i]);
        lemma_keychain_map(front);
        assert forall|k: int| 0 <= k < entries.len() implies {
            &&& keychain_map(entries).contains_key((#[trigger] entries[k]).serial_number@)
            &&& keychain_map(entries)[entries[k].serial_number@] == (
                entries[k].encryption_key@,
                entries[k].fetched_at,
            )
        } by {
            if k < last {
                assert(front[k].serial_number@ != entries[last].serial_number@);
            }
        }
        assert forall|s: Seq<char>| #[trigger]
            keychain_map(entries).contains_key(s) implies exists|k: int|
            0 <= k < entries.len() && (#[trigger] entries[k]).serial_number@ == s by {
            if s == entries[last].serial_number@ {
            } else {
                assert(keychain_map(front).contains_key(s));
                let k = choose|k: int|
                    0 <= k < front.len() && (#[trigger] front[k]).serial_number@ == s;
                assert(entries[k].serial_number@ == s);
            }
        }
    }
}

/// Finds the entry of the device `serial`.
fn find_key(entries: &Vec<KeychainEntry>, serial: &str) -> (found: Option<usize>)
    ensures
        match found {
            Some(k) => k < entries@.len() && entries@[k as int].serial_number@ == serial@,
            None => forall|j: int|
                0 <= j < entries@.len() ==> (#[trigger] entries@[j]).serial_number@ != serial@,
        },
{
    let mut k: usize = 0;
    while k < entries.len()
        invariant
            k <= entries@.len(),
            forall|j: int| 0 <= j < k ==> (#[trigger] entries@[j]).serial_number@ != serial@,
        decreases entries@.len() - k,
    {
        if same_text(entries[k].serial_number.as_str(), serial) {
            return Some(k);
        }
        k += 1;
    }
    None
}

/// Gathers the values that a column holds, absent entries left out.
fn present_values<V: Copy>(column: &Vec<Option<V>>) -> (values: Vec<V>)
    ensures
        values@ == present(column@),
{
    let mut values: Vec<V> = Vec::new();
    let mut i: usize = 0;
    assert(column@.take(0) =~= Seq::<Option<V>>::empty());
    while i < column.len()
        invariant
            i <= column@.len(),
            values@ == present(column@.take(i as int)),
        decreases column@.len() - i,
    {
        assert(column@.take(i + 1).drop_last() =~= column@.take(i as int));
        match column[i] {
            Some(v) => {
                values.push(v);
            },
            None => {},
        }
        i += 1;
    }
    assert(column@.take(column@.len() as int) =~= column@);
    values
}

impl<V: Copy> Database<V> {
    /// Makes an empty store.
    pub fn new() -> (db: Self)
        ensures
            db.flights().len() == 0,
            forall|id: i64| (#[trigger] db.telemetry(id)).len() == 0,
            db.keychain() == Map::<Seq<char>, (Seq<char>, i64)>::empty(),
    {
        Database { flights: Vec::new(), telemetry: HashMap::new(), keychains: Vec::new() }
    }

    /// Names the store file within the data directory.
    pub fn store_file() -> (name: &'static str)
        ensures
            name@ == "flights.db"@,
    {
        "flights.db"
    }

    /// Names the directory of archived log files within the data directory.
    pub fn raw_logs_dir(&self) -> (name: &'static str)
        ensures
            name@ == "raw_logs"@,
    {
        "raw_logs"
    }

    /// Names the directory of cached keys within the data directory.
    pub fn keychains_dir(&self) -> (name: &'static str)
        ensures
            name@ == "keychains"@,
    {
        "keychains"
    }

    /// Derives the id of a new flight from the time of its import, given in
    /// milliseconds since the Unix epoch.
    pub fn generate_flight_id(&self, now_ms: i64) -> (id: i64)
        requires
            now_ms >= 0,
        ensures
            id == now_ms % 1_000_000_000_000,
    {
        now_ms % 1_000_000_000_000
    }

    /// Registers a flight and gives its id.
    ///
    /// Refuses a flight whose id is registered, and then one whose content
    /// hash is; the store is then as it was.
    pub fn insert_flight(&mut self, flight: &FlightMetadata<V>) -> (result: Result<
        i64,
        DatabaseError,
    >)
        ensures
            has_flight(old(self).flights(), flight.id) ==> result == Err::<i64, DatabaseError>(
                DatabaseError::Storage(StorageFailure::DuplicateFlightId),
            ),
            !has_flight(old(self).flights(), flight.id) && flight.file_hash is Some && has_hash(
                old(self).flights(),
                flight.file_hash->0@,
            ) ==> result == Err::<i64, DatabaseError>(
                DatabaseError::Storage(StorageFailure::DuplicateFileHash),
            ),
            !has_flight(old(self).flights(), flight.id) && !(flight.file_hash is Some && has_hash(
                old(self).flights(),
                flight.file_hash->0@,
            )) ==> result == Ok::<i64, DatabaseError>(flight.id),
            result is Ok ==> final(self).flights() == old(self).flights().push(*flight),
            result is Err ==> final(self).flights() == old(self).flights(),
            forall|id: i64| final(self).telemetry(id) == old(self).telemetry(id),
            final(self).keychain() == old(self).keychain(),
    {
        proof {
            use_type_invariant(&*self);
        }
        if find_flight(&self.flights, flight.id).is_some() {
            return Err(DatabaseError::Storage(StorageFailure::DuplicateFlightId));
        }
        let hash_taken: bool = match &flight.file_hash {
            Some(h) => hash_known(&self.flights, h.as_str()),
            None => false,
        };
        if hash_taken {
            return Err(DatabaseError::Storage(StorageFailure::DuplicateFileHash));
        }
        let row: FlightMetadata<V> = clone_flight(flight);
        proof {
            lemma_push_keeps_unique(self.flights@, row);
        }
        let mut flights: Vec<FlightMetadata<V>> = Vec::new();
        std::mem::swap(&mut flights, &mut self.flights);
        flights.push(row);
        self.flights = flights;
        Ok(flight.id)
    }

    /// Adds samples to a flight, all or none, and gives their number.
    ///
    /// Refuses the samples where one has the timestamp of a stored sample of
    /// the flight or of another of them; the store is then as it was.
    pub fn bulk_insert_telemetry(&mut self, flight_id: i64, points: &[TelemetryPoint<V>]) -> (result:
        Result<usize, DatabaseError>)
        ensures
            match result {
                Ok(count) => {
                    &&& count == points@.len()
                    &&& !key_collision(old(self).telemetry(flight_id), points@)
                    &&& is_merge(
                        old(self).telemetry(flight_id),
                        points@,
                        final(self).telemetry(flight_id),
                    )
                },
                Err(e) => {
                    &&& e == DatabaseError::Storage(StorageFailure::DuplicateTimestamp)
                    &&& key_collision(old(self).telemetry(flight_id), points@)
                    &&& final(self).telemetry(flight_id) == old(self).telemetry(flight_id)
                },
            },
            forall|other: i64|
                other != flight_id ==> final(self).telemetry(other) == old(self).telemetry(other),
            final(self).flights() == old(self).flights(),
            final(self).keychain() == old(self).keychain(),
    {
        broadcast use group_hash_axioms;

        proof {
            use_type_invariant(&*self);
        }
        let merged: Option<Vec<TelemetryPoint<V>>> = match self.telemetry.get(&flight_id) {
            Some(stored) => merge_samples(stored, points),
            None => {
                let none: Vec<TelemetryPoint<V>> = Vec::new();
                merge_samples(&none, points)
            },
        };
        match merged {
            None => Err(DatabaseError::Storage(StorageFailure::DuplicateTimestamp)),
            Some(all) => {
                let ghost before = self.telemetry@;
                proof {
                    assert forall|id: i64|
                        before.insert(flight_id, all).contains_key(id) implies samples_ascending(
                        #[trigger] before.insert(flight_id, all)[id]@,
                    ) by {
                        if id != flight_id {
                            assert(samples_ascending(before[id]@));
                        }
                    }
                }
                let mut telemetry: HashMap<i64, Vec<TelemetryPoint<V>>> = HashMap::new();
                std::mem::swap(&mut telemetry, &mut self.telemetry);
                telemetry.insert(flight_id, all);
                self.telemetry = telemetry;
                Ok(points.len())
            },
        }
    }

    /// Lists every flight, by descending start time.
    ///
    /// No two registered flights have one id or one content hash.
    pub fn get_all_flights(&self) -> (result: Result<Vec<Flight<V>>, DatabaseError>)
        ensures
            result matches Ok(list) && is_flight_list(self.flights(), list@),
            unique_ids(self.flights()),
            unique_hashes(self.flights()),
    {
        proof {
            use_type_invariant(&*self);
        }
        Ok(list_flights(&self.flights))
    }

    /// Gives the telemetry of a flight for a chart, downsampled where the
    /// flight has more samples than `max_points`, 5000 where that is `None`.
    pub fn get_flight_telemetry<F: Fn(Vec<V>) -> V>(
        &self,
        flight_id: i64,
        max_points: Option<usize>,
        mean: &F,
    ) -> (result: Result<Vec<TelemetryRecord<V>>, DatabaseError>)
        requires
            max_points != Some(0usize),
            accepts_values(*mean),
        ensures
            samples_ascending(self.telemetry(flight_id)),
            is_telemetry_answer(
                self.telemetry(flight_id),
                flight_id,
                budget_or(max_points, DEFAULT_TELEMETRY_POINTS),
                result,
                *mean,
            ),
    {
        broadcast use group_hash_axioms;

        proof {
            use_type_invariant(&*self);
        }
        match self.telemetry.get(&flight_id) {
            Some(stored) => flight_telemetry(stored, flight_id, max_points, mean),
            None => Err(DatabaseError::FlightNotFound(flight_id)),
        }
    }

    /// Gives the track of a flight for a map, thinned to about `max_points`
    /// positions, 2000 where that is `None`.
    pub fn get_flight_track(&self, flight_id: i64, max_points: Option<usize>) -> (result: Result<
        Vec<[V; 3]>,
        DatabaseError,
    >)
        requires
            max_points != Some(0usize),
        ensures
            result matches Ok(track) && is_track_of(
                self.telemetry(flight_id),
                budget_or(max_points, DEFAULT_TRACK_POINTS),
                track@,
            ),
    {
        broadcast use group_hash_axioms;

        match self.telemetry.get(&flight_id) {
            Some(stored) => Ok(flight_track(stored, max_points)),
            None => {
                let none: Vec<TelemetryPoint<V>> = Vec::new();
                Ok(flight_track(&none, max_points))
            },
        }
    }

    /// Removes a flight and its samples.
    pub fn delete_flight(&mut self, flight_id: i64) -> (result: Result<(), DatabaseError>)
        ensures
            result is Ok,
            is_without(old(self).flights(), flight_id, final(self).flights()),
            !has_flight(final(self).flights(), flight_id),
            final(self).telemetry(flight_id).len() == 0,
            forall|other: i64|
                other != flight_id ==> final(self).telemetry(other) == old(self).telemetry(other),
            final(self).keychain() == old(self).keychain(),
    {
        broadcast use group_hash_axioms;

        proof {
            use_type_invariant(&*self);
        }
        let ghost before = self.telemetry@;
        proof {
            assert forall|id: i64| before.remove(flight_id).contains_key(id) implies samples_ascending(
                #[trigger] before.remove(flight_id)[id]@,
            ) by {
                assert(samples_ascending(before[id]@));
            }
        }
        let mut telemetry: HashMap<i64, Vec<TelemetryPoint<V>>> = HashMap::new();
        std::mem::swap(&mut telemetry, &mut self.telemetry);
        telemetry.remove(&flight_id);
        self.telemetry = telemetry;
        match find_flight(&self.flights, flight_id) {
            Some(k) => {
                proof {
                    lemma_remove_keeps_unique(self.flights@, k as int);
                }
                let mut flights: Vec<FlightMetadata<V>> = Vec::new();
                std::mem::swap(&mut flights, &mut self.flights);
                flights.remove(k);
                self.flights = flights;
            },
            None => {},
        }
        Ok(())
    }

    /// Removes every flight and every sample.
    pub fn delete_all_flights(&mut self) -> (result: Result<(), DatabaseError>)
        ensures
            result is Ok,
            final(self).flights().len() == 0,
            forall|id: i64| (#[trigger] final(self).telemetry(id)).len() == 0,
            final(self).keychain() == old(self).keychain(),
    {
        proof {
            use_type_invariant(&*self);
        }
        self.telemetry = HashMap::new();
        self.flights = Vec::new();
        Ok(())
    }

    /// Gives the totals over every flight and the battery histogram.
    ///
    /// `sum` adds up a list of measurements; it gives zero for the empty list.
    pub fn get_overview_stats<F: Fn(Vec<V>) -> V>(&self, sum: &F) -> (result: Result<
        OverviewStats<V>,
        DatabaseError,
    >)
        requires
            accepts_all(*sum),
        ensures
            is_overview(self.flights(), result, *sum),
    {
        let n: usize = self.flights.len();
        if n as u64 > 0x7fff_ffff_ffff_ffff {
            return Err(DatabaseError::Storage(StorageFailure::OutOfRange));
        }
        let total_points: i64 = match sum_points(&self.flights) {
            Some(p) => p,
            None => {
                return Err(DatabaseError::Storage(StorageFailure::OutOfRange));
            },
        };
        let mut distances: Vec<Option<V>> = Vec::new();
        let mut durations: Vec<Option<V>> = Vec::new();
        let mut i: usize = 0;
        while i < n
            invariant
                i <= n,
                n == self.flights@.len(),
                distances@.len() == i,
                durations@.len() == i,
                forall|k: int| 0 <= k < i ==> distances@[k] == self.flights@[k].total_distance,
                forall|k: int| 0 <= k < i ==> durations@[k] == self.flights@[k].duration_secs,
            decreases n - i,
        {
            distances.push(self.flights[i].total_distance);
            durations.push(self.flights[i].duration_secs);
            i += 1;
        }
        assert(distances@ =~= distance_series(self.flights@));
        assert(durations@ =~= duration_series(self.flights@));
        let distance_values: Vec<V> = present_values(&distances);
        let duration_values: Vec<V> = present_values(&durations);
        let ghost held_distances = distance_values;
        let ghost held_durations = duration_values;
        let total_distance_m: V = sum(distance_values);
        let total_duration_secs: V = sum(duration_values);
        assert(held_distances@ == present(distance_series(self.flights@)) && call_ensures(
            *sum,
            (held_distances,),
            total_distance_m,
        ));
        assert(held_durations@ == present(duration_series(self.flights@)) && call_ensures(
            *sum,
            (held_durations,),
            total_duration_secs,
        ));
        Ok(
            OverviewStats {
                total_flights: n as i64,
                total_distance_m,
                total_duration_secs,
                total_points,
                batteries_used: battery_usage(&self.flights),
            },
        )
    }

    /// Gives a flight a new display name, with the white space at either end
    /// removed.
    ///
    /// Refuses a name that is empty or holds white space only. Where no
    /// flight has the id, nothing changes.
    pub fn update_flight_name(&mut self, flight_id: i64, display_name: &str) -> (result: Result<
        (),
        DatabaseError,
    >)
        ensures
            trimmed(display_name@).len() == 0 ==> result == Err::<(), DatabaseError>(
                DatabaseError::InvalidName,
            ) && final(self).flights() == old(self).flights(),
            trimmed(display_name@).len() > 0 ==> result is Ok && is_renamed(
                old(self).flights(),
                flight_id,
                trimmed(display_name@),
                final(self).flights(),
            ),
            forall|id: i64| final(self).telemetry(id) == old(self).telemetry(id),
            final(self).keychain() == old(self).keychain(),
    {
        proof {
            use_type_invariant(&*self);
        }
        let name: &str = trim(display_name);
        if name.unicode_len() == 0 {
            return Err(DatabaseError::InvalidName);
        }
        match find_flight(&self.flights, flight_id) {
            Some(k) => {
                let renamed = FlightMetadata {
                    display_name: String::from_str(name),
                    ..clone_flight(&self.flights[k])
                };
                let ghost before = self.flights@;
                proof {
                    let after = before.update(k as int, renamed);
                    assert forall|i: int, j: int| 0 <= i < j < after.len() implies #[trigger] after[i].id
                        != #[trigger] after[j].id by {
                        assert(before[i].id != before[j].id);
                    }
                    assert forall|i: int, j: int|
                        0 <= i < j < after.len() && (
                        #[trigger] after[i]).file_hash is Some implies !same_hash(
                        (#[trigger] after[j]).file_hash,
                        after[i].file_hash->0@,
                    ) by {
                        assert(!same_hash(before[j].file_hash, before[i].file_hash->0@));
                    }
                    assert forall|i: int| 0 <= i < before.len() implies if before[i].id
                        == flight_id {
                        &&& (#[trigger] after[i]).display_name@ == name@
                        &&& after[i] == FlightMetadata {
                            display_name: after[i].display_name,
                            ..before[i]
                        }
                    } else {
                        after[i] == before[i]
                    } by {
                        if i < k {
                            assert(before[i].id != before[k as int].id);
                        } else if i > k {
                            assert(before[k as int].id != before[i].id);
                        }
                    }
                }
                let mut flights: Vec<FlightMetadata<V>> = Vec::new();
                std::mem::swap(&mut flights, &mut self.flights);
                flights.set(k, renamed);
                self.flights = flights;
            },
            None => {
                assert forall|i: int| 0 <= i < self.flights@.len() implies (
                #[trigger] self.flights@[i]).id != flight_id by {}
            },
        }
        Ok(())
    }

    /// Tells whether a flight with the id `flight_id` is registered.
    pub fn contains_flight(&self, flight_id: i64) -> (found: bool)
        ensures
            found == has_flight(self.flights(), flight_id),
    {
        find_flight(&self.flights, flight_id).is_some()
    }

    /// Tells whether a flight was imported from content with the hash
    /// `file_hash`.
    pub fn is_file_imported(&self, file_hash: &str) -> (result: Result<bool, DatabaseError>)
        ensures
            result == Ok::<bool, DatabaseError>(has_hash(self.flights(), file_hash@)),
    {
        Ok(hash_known(&self.flights, file_hash))
    }

    /// Caches the key of a device, in place of the one cached before, with
    /// the time it was fetched.
    pub fn store_keychain(&mut self, serial: &str, key: &str, fetched_at: i64) -> (result: Result<
        (),
        DatabaseError,
    >)
        ensures
            result is Ok,
            final(self).keychain() == old(self).keychain().insert(serial@, (key@, fetched_at)),
            final(self).flights() == old(self).flights(),
            forall|id: i64| final(self).telemetry(id) == old(self).telemetry(id),
    {
        proof {
            use_type_invariant(&*self);
        }
        let entry = KeychainEntry {
            serial_number: String::from_str(serial),
            encryption_key: String::from_str(key),
            fetched_at,
        };
        let k: usize = match find_key(&self.keychains, serial) {
            Some(k) => k,
            None => self.keychains.len(),
        };
        let ghost before = self.keychains@;
        let ghost after = if k < before.len() {
            before.update(k as int, entry)
        } else {
            before.push(entry)
        };
        proof {
            assert(k < before.len() ==> before[k as int].serial_number@ == serial@);
            assert forall|i: int, j: int| 0 <= i < j < after.len() implies (
            #[trigger] after[i]).serial_number@ != (#[trigger] after[j]).serial_number@ by {
                if k < before.len() {
                    assert(before[i].serial_number@ != before[j].serial_number@);
                } else if j < before.len() {
                    assert(before[i].serial_number@ != before[j].serial_number@);
                }
            }
            lemma_keychain_map(before);
            lemma_keychain_map(after);
            let want = keychain_map(before).insert(serial@, (key@, fetched_at));
            assert forall|s: Seq<char>| keychain_map(after).contains_key(s) <==> want.contains_key(
                s,
            ) by {
                if keychain_map(after).contains_key(s) {
                    let i = choose|i: int|
                        0 <= i < after.len() && (#[trigger] after[i]).serial_number@ == s;
                    if s != serial@ {
                        assert(before[i].serial_number@ == s);
                    }
                }
                if want.contains_key(s) {
                    if s != serial@ {
                        let i = choose|i: int|
                            0 <= i < before.len() && (#[trigger] before[i]).serial_number@ == s;
                        assert(after[i].serial_number@ == s);
                    } else {
                        if k < before.len() {
                            assert(after[k as int].serial_number@ == s);
                        } else {
                            assert(after[before.len() as int].serial_number@ == s);
                        }
                    }
                }
            }
            assert forall|s: Seq<char>| keychain_map(after).contains_key(s) implies keychain_map(
                after,
            )[s] == want[s] by {
                let i = choose|i: int|
                    0 <= i < after.len() && (#[trigger] after[i]).serial_number@ == s;
                if s != serial@ {
                    assert(before[i].serial_number@ == s);
                }
            }
            assert(keychain_map(after) =~= want);
        }
        let mut keychains: Vec<KeychainEntry> = Vec::new();
        std::mem::swap(&mut keychains, &mut self.keychains);
        if k < keychains.len() {
            keychains.set(k, entry);
        } else {
            keychains.push(entry);
        }
        self.keychains = keychains;
        Ok(())
    }

    /// Gives the cached key of a device, if there is one.
    pub fn get_keychain(&self, serial: &str) -> (result: Result<Option<String>, DatabaseError>)
        ensures
            result is Ok,
            match result->Ok_0 {
                Some(key) => self.keychain().contains_key(serial@) && self.keychain()[serial@].0
                    == key@,
                None => !self.keychain().contains_key(serial@),
            },
    {
        proof {
            use_type_invariant(&*self);
            lemma_keychain_map(self.keychains@);
        }
        match find_key(&self.keychains, serial) {
            Some(k) => {
                assert(self.keychain().contains_key(self.keychains@[k as int].serial_number@));
                Ok(Some(self.keychains[k].encryption_key.clone()))
            },
            None => Ok(None),
        }
    }
}

} // verus!

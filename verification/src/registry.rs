//! The flight registry: lookups, the flight list and the battery histogram
//! over a sequence of flight rows.

use crate::models::{clone_text, BatteryUsage, Flight, FlightMetadata};
use crate::text::same_text;
use vstd::prelude::*;

verus! {

/// One of `flights` has the id `id`.
pub open spec fn has_flight<V>(flights: Seq<FlightMetadata<V>>, id: i64) -> bool {
    exists|i: int| 0 <= i < flights.len() && #[trigger] flights[i].id == id
}

/// `stored` is the content hash `hash`.
pub open spec fn same_hash(stored: Option<String>, hash: Seq<char>) -> bool {
    stored matches Some(h) && h@ == hash
}

/// One of `flights` was imported from content with the hash `hash`.
pub open spec fn has_hash<V>(flights: Seq<FlightMetadata<V>>, hash: Seq<char>) -> bool {
    exists|i: int| 0 <= i < flights.len() && same_hash(#[trigger] flights[i].file_hash, hash)
}

/// No two of `flights` have one id.
pub open spec fn unique_ids<V>(flights: Seq<FlightMetadata<V>>) -> bool {
    forall|i: int, j: int|
        0 <= i < j < flights.len() ==> #[trigger] flights[i].id != #[trigger] flights[j].id
}

/// No two of `flights` have one content hash.
pub open spec fn unique_hashes<V>(flights: Seq<FlightMetadata<V>>) -> bool {
    forall|i: int, j: int|
        0 <= i < j < flights.len() && (#[trigger] flights[i]).file_hash is Some ==> !same_hash(
            (#[trigger] flights[j]).file_hash,
            flights[i].file_hash->0@,
        )
}

/// How many of `flights` were imported from content with the hash `hash`.
pub open spec fn flights_with_hash<V>(flights: Seq<FlightMetadata<V>>, hash: Seq<char>) -> nat
    decreases flights.len(),
{
    if flights.len() == 0 {
        0
    } else if same_hash(flights.last().file_hash, hash) {
        flights_with_hash(flights.drop_last(), hash) + 1
    } else {
        flights_with_hash(flights.drop_last(), hash)
    }
}

/// The flight list's entry for a flight: the display name, or the file name
/// where the display name is empty.
pub open spec fn listing<V>(f: FlightMetadata<V>) -> Flight<V> {
    Flight {
        id: f.id,
        file_name: f.file_name,
        display_name: if f.display_name@.len() == 0 {
            f.file_name
        } else {
            f.display_name
        },
        drone_model: f.drone_model,
        drone_serial: f.drone_serial,
        aircraft_name: f.aircraft_name,
        battery_serial: f.battery_serial,
        start_time: f.start_time,
        duration_secs: f.duration_secs,
        total_distance: f.total_distance,
        max_altitude: f.max_altitude,
        max_speed: f.max_speed,
        point_count: Some(f.point_count),
    }
}

/// A start time as a number that is greater the later the start; a flight
/// without one ranks below all that have one.
pub open spec fn start_rank(start_time: Option<i64>) -> int {
    match start_time {
        Some(t) => t as int,
        None => i64::MIN - 1,
    }
}

/// The flight at `a` stands before the flight at `b` in the flight list: it
/// started later, or as late and was registered earlier.
pub open spec fn lists_before<V>(flights: Seq<FlightMetadata<V>>, a: int, b: int) -> bool {
    start_rank(flights[a].start_time) > start_rank(flights[b].start_time) || (start_rank(
        flights[a].start_time,
    ) == start_rank(flights[b].start_time) && a < b)
}

/// `order` names every flight once, each before those that it stands before
/// in the flight list.
pub open spec fn is_listing_order<V>(flights: Seq<FlightMetadata<V>>, order: Seq<int>) -> bool {
    &&& order.len() == flights.len()
    &&& forall|k: int| 0 <= k < order.len() ==> 0 <= #[trigger] order[k] < flights.len()
    &&& forall|i: int| 0 <= i < flights.len() ==> order.contains(i)
    &&& forall|j: int, k: int|
        0 <= j < k < order.len() ==> lists_before(flights, #[trigger] order[j], #[trigger] order[k])
}

/// `list` is the flight list of `flights`: every flight once, by descending
/// start time.
pub open spec fn is_flight_list<V>(flights: Seq<FlightMetadata<V>>, list: Seq<Flight<V>>) -> bool {
    exists|order: Seq<int>|
        {
            &&& #[trigger] is_listing_order(flights, order)
            &&& list.len() == flights.len()
            &&& forall|k: int| 0 <= k < list.len() ==> #[trigger] list[k] == listing(flights[order[k]])
        }
}

/// The battery of a flight, where it names one.
pub open spec fn battery_of<V>(f: FlightMetadata<V>) -> Option<Seq<char>> {
    match f.battery_serial {
        Some(s) => if s@.len() > 0 {
            Some(s@)
        } else {
            None
        },
        None => None,
    }
}

/// How many of `flights` used the battery `serial`.
pub open spec fn flights_with_battery<V>(flights: Seq<FlightMetadata<V>>, serial: Seq<char>) -> nat
    decreases flights.len(),
{
    if flights.len() == 0 {
        0
    } else if battery_of(flights.last()) == Some(serial) {
        flights_with_battery(flights.drop_last(), serial) + 1
    } else {
        flights_with_battery(flights.drop_last(), serial)
    }
}

/// One of `usage` is for the battery `serial`.
pub open spec fn lists_battery(usage: Seq<BatteryUsage>, serial: Seq<char>) -> bool {
    exists|k: int| 0 <= k < usage.len() && (#[trigger] usage[k]).battery_serial@ == serial
}

/// `usage` is the battery histogram of `flights`: one entry for each battery
/// that a flight names, with the number of flights that used it, by
/// descending number.
pub open spec fn is_battery_usage<V>(flights: Seq<FlightMetadata<V>>, usage: Seq<BatteryUsage>) -> bool {
    &&& forall|k: int|
        0 <= k < usage.len() ==> {
            &&& (#[trigger] usage[k]).battery_serial@.len() > 0
            &&& usage[k].flight_count > 0
            &&& usage[k].flight_count == flights_with_battery(flights, usage[k].battery_serial@)
        }
    &&& forall|j: int, k: int|
        0 <= j < k < usage.len() ==> (#[trigger] usage[j]).battery_serial@
            != (#[trigger] usage[k]).battery_serial@
    &&& forall|i: int|
        0 <= i < flights.len() && battery_of(#[trigger] flights[i]) is Some ==> lists_battery(
            usage,
            battery_of(flights[i])->0,
        )
    &&& forall|j: int, k: int|
        0 <= j < k < usage.len() ==> (#[trigger] usage[j]).flight_count
            >= (#[trigger] usage[k]).flight_count
}

/// The sum of the point counts of `flights`.
pub open spec fn total_points<V>(flights: Seq<FlightMetadata<V>>) -> int
    decreases flights.len(),
{
    if flights.len() == 0 {
        0
    } else {
        total_points(flights.drop_last()) + flights.last().point_count
    }
}

/// A flight that the flight list does not show is not registered.
pub proof fn lemma_unlisted_is_unregistered<V>(
    flights: Seq<FlightMetadata<V>>,
    list: Seq<Flight<V>>,
    flight_id: i64,
)
    requires
        is_flight_list(flights, list),
        forall|j: int| 0 <= j < list.len() ==> (#[trigger] list[j]).id != flight_id,
    ensures
        !has_flight(flights, flight_id),
{
    let order = choose|order: Seq<int>|
        {
            &&& #[trigger] is_listing_order(flights, order)
            &&& list.len() == flights.len()
            &&& forall|k: int|
                0 <= k < list.len() ==> #[trigger] list[k] == listing(flights[order[k]])
        };
    assert forall|i: int| 0 <= i < flights.len() implies (#[trigger] flights[i]).id
        != flight_id by {
        assert(order.contains(i));
        let k = choose|k: int| 0 <= k < order.len() && order[k] == i;
        assert(list[k] == listing(flights[order[k]]));
    }
}

/// A flight that the flight list shows is registered: the entry is the
/// listing of a registered flight.
pub proof fn lemma_listed_is_registered<V>(
    flights: Seq<FlightMetadata<V>>,
    list: Seq<Flight<V>>,
    k: int,
)
    requires
        is_flight_list(flights, list),
        0 <= k < list.len(),
    ensures
        has_flight(flights, list[k].id),
        exists|i: int| 0 <= i < flights.len() && list[k] == listing(#[trigger] flights[i]),
{
    let order = choose|order: Seq<int>|
        {
            &&& #[trigger] is_listing_order(flights, order)
            &&& list.len() == flights.len()
            &&& forall|k: int|
                0 <= k < list.len() ==> #[trigger] list[k] == listing(flights[order[k]])
        };
    assert(list[k] == listing(flights[order[k]]));
    assert(flights[order[k]].id == list[k].id);
}

/// The flight list is in descending order of start time: no flight stands
/// before one that started later, and one without a start time stands before
/// none that has one.
pub proof fn lemma_flight_list_descends<V>(
    flights: Seq<FlightMetadata<V>>,
    list: Seq<Flight<V>>,
    j: int,
    k: int,
)
    requires
        is_flight_list(flights, list),
        0 <= j < k < list.len(),
    ensures
        start_rank(list[j].start_time) >= start_rank(list[k].start_time),
{
    let order = choose|order: Seq<int>|
        {
            &&& #[trigger] is_listing_order(flights, order)
            &&& list.len() == flights.len()
            &&& forall|k: int|
                0 <= k < list.len() ==> #[trigger] list[k] == listing(flights[order[k]])
        };
    assert(list[j] == listing(flights[order[j]]));
    assert(list[k] == listing(flights[order[k]]));
    assert(lists_before(flights, order[j], order[k]));
}

/// No flight holds a content hash that is not registered.
pub proof fn lemma_unknown_hash_counts_zero<V>(flights: Seq<FlightMetadata<V>>, hash: Seq<char>)
    requires
        !has_hash(flights, hash),
    ensures
        flights_with_hash(flights, hash) == 0,
    decreases flights.len(),
{
    if flights.len() > 0 {
        let front = flights.drop_last();
        assert(!same_hash(flights[flights.len() - 1].file_hash, hash));
        assert forall|i: int| 0 <= i < front.len() implies !same_hash(
            #[trigger] front[i].file_hash,
            hash,
        ) by {
            assert(front[i] == flights[i]);
        }
        lemma_unknown_hash_counts_zero(front, hash);
    }
}

/// Once a flight is registered with a content hash that was not registered,
/// the hash is registered, and exactly one flight holds it.
pub proof fn lemma_registered_once<V>(
    flights: Seq<FlightMetadata<V>>,
    flight: FlightMetadata<V>,
    hash: Seq<char>,
)
    requires
        !has_hash(flights, hash),
        same_hash(flight.file_hash, hash),
    ensures
        has_hash(flights.push(flight), hash),
        flights_with_hash(flights.push(flight), hash) == 1,
{
    let after = flights.push(flight);
    assert(after.drop_last() =~= flights);
    assert(same_hash(after[after.len() - 1].file_hash, hash));
    lemma_unknown_hash_counts_zero(flights, hash);
}

/// Copies a flight row.
pub fn clone_flight<V: Copy>(f: &FlightMetadata<V>) -> (copy: FlightMetadata<V>)
    ensures
        copy == *f,
{
    FlightMetadata {
        id: f.id,
        file_name: f.file_name.clone(),
        display_name: f.display_name.clone(),
        file_hash: clone_text(&f.file_hash),
        drone_model: clone_text(&f.drone_model),
        drone_serial: clone_text(&f.drone_serial),
        aircraft_name: clone_text(&f.aircraft_name),
        battery_serial: clone_text(&f.battery_serial),
        start_time: f.start_time,
        end_time: f.end_time,
        duration_secs: f.duration_secs,
        total_distance: f.total_distance,
        max_altitude: f.max_altitude,
        max_speed: f.max_speed,
        home_lat: f.home_lat,
        home_lon: f.home_lon,
        point_count: f.point_count,
    }
}

/// Builds the flight list's entry for a flight.
pub fn listing_of<V: Copy>(f: &FlightMetadata<V>) -> (entry: Flight<V>)
    ensures
        entry == listing(*f),
{
    let display_name: String = if f.display_name.as_str().unicode_len() == 0 {
        f.file_name.clone()
    } else {
        f.display_name.clone()
    };
    Flight {
        id: f.id,
        file_name: f.file_name.clone(),
        display_name,
        drone_model: clone_text(&f.drone_model),
        drone_serial: clone_text(&f.drone_serial),
        aircraft_name: clone_text(&f.aircraft_name),
        battery_serial: clone_text(&f.battery_serial),
        start_time: f.start_time,
        duration_secs: f.duration_secs,
        total_distance: f.total_distance,
        max_altitude: f.max_altitude,
        max_speed: f.max_speed,
        point_count: Some(f.point_count),
    }
}

/// Finds the flight with the id `id`.
pub fn find_flight<V>(flights: &Vec<FlightMetadata<V>>, id: i64) -> (found: Option<usize>)
    ensures
        match found {
            Some(i) => i < flights@.len() && flights@[i as int].id == id,
            None => !has_flight(flights@, id),
        },
{
    let mut i: usize = 0;
    while i < flights.len()
        invariant
            i <= flights@.len(),
            forall|k: int| 0 <= k < i ==> (#[trigger] flights@[k]).id != id,
        decreases flights@.len() - i,
    {
        if flights[i].id == id {
            return Some(i);
        }
        i += 1;
    }
    None
}

/// Tells whether `stored` is the content hash `hash`.
fn is_hash(stored: &Option<String>, hash: &str) -> (same: bool)
    ensures
        same == same_hash(*stored, hash@),
{
    match stored {
        Some(h) => same_text(h.as_str(), hash),
        None => false,
    }
}

/// Tells whether a flight was imported from content with the hash `hash`.
pub fn hash_known<V>(flights: &Vec<FlightMetadata<V>>, hash: &str) -> (known: bool)
    ensures
        known == has_hash(flights@, hash@),
{
    let mut i: usize = 0;
    while i < flights.len()
        invariant
            i <= flights@.len(),
            forall|k: int| 0 <= k < i ==> !same_hash((#[trigger] flights@[k]).file_hash, hash@),
        decreases flights@.len() - i,
    {
        if is_hash(&flights[i].file_hash, hash) {
            return true;
        }
        i += 1;
    }
    false
}

/// Tells whether one start time is later than another; a flight without one
/// is earlier than all that have one.
fn starts_later(a: Option<i64>, b: Option<i64>) -> (later: bool)
    ensures
        later == (start_rank(a) > start_rank(b)),
{
    match a {
        Some(x) => match b {
            Some(y) => x > y,
            None => true,
        },
        None => false,
    }
}

/// The indices of `order` as mathematical integers.
pub open spec fn as_indices(order: Seq<usize>) -> Seq<int> {
    Seq::new(order.len(), |k: int| order[k] as int)
}

/// Orders the flights for the flight list.
fn listing_order<V>(flights: &Vec<FlightMetadata<V>>) -> (order: Vec<usize>)
    ensures
        is_listing_order(flights@, as_indices(order@)),
{
    let mut order: Vec<usize> = Vec::new();
    let mut i: usize = 0;
    while i < flights.len()
        invariant
            i <= flights@.len(),
            order@.len() == i,
            forall|k: int| 0 <= k < order@.len() ==> 0 <= #[trigger] order@[k] < i,
            forall|x: int| 0 <= x < i ==> as_indices(order@).contains(x),
            forall|j: int, k: int|
                0 <= j < k < order@.len() ==> lists_before(
                    flights@,
                    #[trigger] order@[j] as int,
                    #[trigger] order@[k] as int,
                ),
        decreases flights@.len() - i,
    {
        let start: Option<i64> = flights[i].start_time;
        let mut pos: usize = order.len();
        while pos > 0 && starts_later(start, flights[order[pos - 1]].start_time)
            invariant
                pos <= order@.len(),
                i < flights@.len(),
                start == flights@[i as int].start_time,
                forall|k: int| 0 <= k < order@.len() ==> 0 <= #[trigger] order@[k] < i,
                forall|k: int|
                    pos <= k < order@.len() ==> start_rank(start) > start_rank(
                        flights@[#[trigger] order@[k] as int].start_time,
                    ),
            decreases pos,
        {
            pos -= 1;
        }
        let ghost before = order@;
        order.insert(pos, i);
        proof {
            let after = order@;
            assert(after[pos as int] == i);
            assert(forall|k: int| 0 <= k < pos ==> after[k] == before[k]);
            assert(forall|k: int| pos < k < after.len() ==> after[k] == before[k - 1]);
            assert forall|x: int| 0 <= x < i + 1 implies as_indices(after).contains(x) by {
                if x < i {
                    assert(as_indices(before).contains(x));
                    let k = choose|k: int|
                        0 <= k < as_indices(before).len() && as_indices(before)[k] == x;
                    if k < pos {
                        assert(as_indices(after)[k] == x);
                    } else {
                        assert(as_indices(after)[k + 1] == x);
                    }
                } else {
                    assert(as_indices(after)[pos as int] == x);
                }
            }
            assert forall|j: int, k: int| 0 <= j < k < after.len() implies lists_before(
                flights@,
                #[trigger] after[j] as int,
                #[trigger] after[k] as int,
            ) by {
                if k < pos {
                    assert(after[j] == before[j] && after[k] == before[k]);
                } else if k == pos {
                    assert(after[j] == before[j]);
                    if j < pos - 1 {
                        assert(lists_before(flights@, before[j] as int, before[pos - 1] as int));
                    }
                } else if j < pos {
                    assert(after[j] == before[j] && after[k] == before[k - 1]);
                } else if j == pos {
                    assert(after[k] == before[k - 1]);
                } else {
                    assert(after[j] == before[j - 1] && after[k] == before[k - 1]);
                }
            }
        }
        i += 1;
    }
    order
}

/// Lists every flight, by descending start time.
///
/// A flight without a start time comes after all that have one; of two that
/// started together the one registered first comes first. Each entry shows
/// the display name, or the file name where the display name is empty.
pub fn list_flights<V: Copy>(flights: &Vec<FlightMetadata<V>>) -> (list: Vec<Flight<V>>)
    ensures
        is_flight_list(flights@, list@),
{
    let order: Vec<usize> = listing_order(flights);
    let mut list: Vec<Flight<V>> = Vec::new();
    let mut k: usize = 0;
    while k < order.len()
        invariant
            k <= order@.len(),
            is_listing_order(flights@, as_indices(order@)),
            list@.len() == k,
            forall|j: int|
                0 <= j < k ==> #[trigger] list@[j] == listing(flights@[as_indices(order@)[j]]),
        decreases order@.len() - k,
    {
        assert(0 <= as_indices(order@)[k as int] < flights@.len());
        list.push(listing_of(&flights[order[k]]));
        k += 1;
    }
    assert(is_listing_order(flights@, as_indices(order@)));
    list
}

/// Tells whether a flight names the battery `serial`.
fn uses_battery<V>(f: &FlightMetadata<V>, serial: &str) -> (uses: bool)
    ensures
        uses == (battery_of(*f) == Some(serial@)),
{
    match &f.battery_serial {
        Some(s) => s.as_str().unicode_len() > 0 && same_text(s.as_str(), serial),
        None => false,
    }
}

/// Counts the flights that used the battery `serial`.
fn count_battery<V>(flights: &Vec<FlightMetadata<V>>, serial: &str) -> (count: usize)
    ensures
        count == flights_with_battery(flights@, serial@),
{
    let mut count: usize = 0;
    let mut i: usize = 0;
    while i < flights.len()
        invariant
            i <= flights@.len(),
            count <= i,
            count == flights_with_battery(flights@.take(i as int), serial@),
        decreases flights@.len() - i,
    {
        assert(flights@.take(i + 1).drop_last() =~= flights@.take(i as int));
        if uses_battery(&flights[i], serial) {
            count += 1;
        }
        i += 1;
    }
    assert(flights@.take(flights@.len() as int) =~= flights@);
    count
}

/// Tells whether the histogram has an entry for the battery `serial`.
fn battery_listed(usage: &Vec<BatteryUsage>, serial: &str) -> (listed: bool)
    ensures
        listed == lists_battery(usage@, serial@),
{
    let mut k: usize = 0;
    while k < usage.len()
        invariant
            k <= usage@.len(),
            forall|j: int| 0 <= j < k ==> (#[trigger] usage@[j]).battery_serial@ != serial@,
        decreases usage@.len() - k,
    {
        if same_text(usage[k].battery_serial.as_str(), serial) {
            return true;
        }
        k += 1;
    }
    false
}

proof fn lemma_battery_count_grows<V>(flights: Seq<FlightMetadata<V>>, serial: Seq<char>, i: int)
    requires
        0 <= i < flights.len(),
        battery_of(flights[i]) == Some(serial),
    ensures
        flights_with_battery(flights, serial) > 0,
    decreases flights.len(),
{
    if i < flights.len() - 1 {
        lemma_battery_count_grows(flights.drop_last(), serial, i);
    }
}

/// Builds the battery histogram of `flights`.
///
/// One entry for each battery that a flight names with a serial that is not
/// empty, with the number of flights that used it, by descending number.
pub fn battery_usage<V>(flights: &Vec<FlightMetadata<V>>) -> (usage: Vec<BatteryUsage>)
    requires
        flights@.len() <= i64::MAX,
    ensures
        is_battery_usage(flights@, usage@),
{
    let mut usage: Vec<BatteryUsage> = Vec::new();
    let mut i: usize = 0;
    while i < flights.len()
        invariant
            i <= flights@.len(),
            flights@.len() <= i64::MAX,
            forall|k: int|
                0 <= k < usage@.len() ==> {
                    &&& (#[trigger] usage@[k]).battery_serial@.len() > 0
                    &&& usage@[k].flight_count > 0
                    &&& usage@[k].flight_count == flights_with_battery(
                        flights@,
                        usage@[k].battery_serial@,
                    )
                },
            forall|j: int, k: int|
                0 <= j < k < usage@.len() ==> (#[trigger] usage@[j]).battery_serial@
                    != (#[trigger] usage@[k]).battery_serial@,
            forall|x: int|
                0 <= x < i && battery_of(#[trigger] flights@[x]) is Some ==> lists_battery(
                    usage@,
                    battery_of(flights@[x])->0,
                ),
            forall|j: int, k: int|
                0 <= j < k < usage@.len() ==> (#[trigger] usage@[j]).flight_count
                    >= (#[trigger] usage@[k]).flight_count,
        decreases flights@.len() - i,
    {
        let ghost before = usage@;
        match &flights[i].battery_serial {
            Some(s) => {
                if s.as_str().unicode_len() > 0 && !battery_listed(&usage, s.as_str()) {
                    let n: usize = count_battery(flights, s.as_str());
                    proof {
                        lemma_battery_count_grows(flights@, s@, i as int);
                        lemma_battery_count_bound(flights@, s@);
                    }
                    let count: i64 = n as i64;
                    let mut pos: usize = usage.len();
                    while pos > 0 && usage[pos - 1].flight_count < count
                        invariant
                            pos <= usage@.len(),
                            forall|k: int|
                                pos <= k < usage@.len() ==> (#[trigger] usage@[k]).flight_count
                                    < count,
                        decreases pos,
                    {
                        pos -= 1;
                    }
                    let entry = BatteryUsage { battery_serial: s.clone(), flight_count: count };
                    usage.insert(pos, entry);
                    proof {
                        let after = usage@;
                        assert(after[pos as int] == entry);
                        assert(forall|k: int| 0 <= k < pos ==> after[k] == before[k]);
                        assert(forall|k: int| pos < k < after.len() ==> after[k] == before[k - 1]);
                        assert forall|j: int, k: int| 0 <= j < k < after.len() implies (
                        #[trigger] after[j]).battery_serial@ != (#[trigger] after[k]).battery_serial@ by {
                            let a = if j < pos {
                                j
                            } else {
                                j - 1
                            };
                            let b = if k < pos {
                                k
                            } else {
                                k - 1
                            };
                            if j != pos && k != pos {
                                assert(before[a].battery_serial@ != before[b].battery_serial@);
                            } else if j == pos {
                                assert(before[b].battery_serial@ != s@);
                            } else {
                                assert(before[a].battery_serial@ != s@);
                            }
                        }
                        assert forall|j: int, k: int| 0 <= j < k < after.len() implies (
                        #[trigger] after[j]).flight_count >= (#[trigger] after[k]).flight_count by {
                            let a = if j < pos {
                                j
                            } else {
                                j - 1
                            };
                            let b = if k < pos {
                                k
                            } else {
                                k - 1
                            };
                            if j != pos && k != pos {
                                assert(before[a].flight_count >= before[b].flight_count);
                            } else if j == pos {
                                assert(before[b].flight_count < count);
                            } else {
                                if pos > 0 {
                                    assert(before[pos - 1].flight_count >= count);
                                    if a < pos - 1 {
                                        assert(before[a].flight_count >= before[pos
                                            - 1].flight_count);
                                    }
                                }
                            }
                        }
                        assert forall|x: int|
                            0 <= x < i + 1 && battery_of(
                                #[trigger] flights@[x],
                            ) is Some implies lists_battery(after, battery_of(flights@[x])->0) by {
                            let serial = battery_of(flights@[x])->0;
                            if x < i && lists_battery(before, serial) {
                                let k = choose|k: int|
                                    0 <= k < before.len() && (#[trigger] before[k]).battery_serial@
                                        == serial;
                                if k < pos {
                                    assert(after[k].battery_serial@ == serial);
                                } else {
                                    assert(after[k + 1].battery_serial@ == serial);
                                }
                            } else {
                                assert(after[pos as int].battery_serial@ == serial);
                            }
                        }
                    }
                }
            },
            None => {},
        }
        i += 1;
    }
    usage
}

proof fn lemma_battery_count_bound<V>(flights: Seq<FlightMetadata<V>>, serial: Seq<char>)
    ensures
        flights_with_battery(flights, serial) <= flights.len(),
    decreases flights.len(),
{
    if flights.len() > 0 {
        lemma_battery_count_bound(flights.drop_last(), serial);
    }
}

/// Adds up the point counts of `flights`; `None` where the sum does not fit.
pub fn sum_points<V>(flights: &Vec<FlightMetadata<V>>) -> (sum: Option<i64>)
    ensures
        match sum {
            Some(s) => s == total_points(flights@),
            None => total_points(flights@) < i64::MIN || total_points(flights@) > i64::MAX,
        },
{
    let mut sum: i128 = 0;
    let mut i: usize = 0;
    while i < flights.len()
        invariant
            i <= flights@.len(),
            sum == total_points(flights@.take(i as int)),
            i32::MIN * i <= sum <= i32::MAX * i,
        decreases flights@.len() - i,
    {
        assert(flights@.take(i + 1).drop_last() =~= flights@.take(i as int));
        sum = sum + flights[i].point_count as i128;
        i += 1;
    }
    assert(flights@.take(flights@.len() as int) =~= flights@);
    if sum < i64::MIN as i128 || sum > i64::MAX as i128 {
        None
    } else {
        Some(sum as i64)
    }
}

} // verus!

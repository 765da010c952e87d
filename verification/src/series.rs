//! The stored samples of one flight: a sequence in strictly ascending order of
//! timestamp, so that no timestamp occurs twice.

use crate::models::{clone_text, TelemetryPoint, TelemetryRecord};
use vstd::prelude::*;

verus! {

/// The timestamps of `samples` strictly ascend.
pub open spec fn samples_ascending<V>(samples: Seq<TelemetryPoint<V>>) -> bool {
    forall|i: int, j: int|
        0 <= i < j < samples.len() ==> samples[i].timestamp_ms < samples[j].timestamp_ms
}

/// One of `samples` was taken at `timestamp_ms`.
pub open spec fn has_timestamp<V>(samples: Seq<TelemetryPoint<V>>, timestamp_ms: i64) -> bool {
    exists|k: int| 0 <= k < samples.len() && #[trigger] samples[k].timestamp_ms == timestamp_ms
}

/// Adding `points` to `stored` would have one timestamp twice: one of `points`
/// is as old as a stored sample, or as another of `points`.
pub open spec fn key_collision<V>(
    stored: Seq<TelemetryPoint<V>>,
    points: Seq<TelemetryPoint<V>>,
) -> bool {
    ||| exists|i: int|
        0 <= i < points.len() && has_timestamp(stored, #[trigger] points[i].timestamp_ms)
    ||| exists|i: int, j: int|
        0 <= i < j < points.len() && #[trigger] points[i].timestamp_ms
            == #[trigger] points[j].timestamp_ms
}

/// `merged` holds the samples of `stored` and of `points`, each once and no
/// other, in strictly ascending order.
pub open spec fn is_merge<V>(
    stored: Seq<TelemetryPoint<V>>,
    points: Seq<TelemetryPoint<V>>,
    merged: Seq<TelemetryPoint<V>>,
) -> bool {
    &&& samples_ascending(merged)
    &&& merged.len() == stored.len() + points.len()
    &&& forall|s: TelemetryPoint<V>| #[trigger]
        merged.contains(s) <==> stored.contains(s) || points.contains(s)
}

/// The chart records of `samples`, one for one.
pub open spec fn records_of<V>(samples: Seq<TelemetryPoint<V>>) -> Seq<TelemetryRecord<V>> {
    Seq::new(samples.len(), |i: int| samples[i].record())
}

/// Copies a sample.
pub fn clone_point<V: Copy>(p: &TelemetryPoint<V>) -> (copy: TelemetryPoint<V>)
    ensures
        copy == *p,
{
    TelemetryPoint {
        timestamp_ms: p.timestamp_ms,
        latitude: p.latitude,
        longitude: p.longitude,
        altitude: p.altitude,
        height: p.height,
        vps_height: p.vps_height,
        altitude_abs: p.altitude_abs,
        speed: p.speed,
        velocity_x: p.velocity_x,
        velocity_y: p.velocity_y,
        velocity_z: p.velocity_z,
        pitch: p.pitch,
        roll: p.roll,
        yaw: p.yaw,
        gimbal_pitch: p.gimbal_pitch,
        gimbal_roll: p.gimbal_roll,
        gimbal_yaw: p.gimbal_yaw,
        battery_percent: p.battery_percent,
        battery_voltage: p.battery_voltage,
        battery_current: p.battery_current,
        battery_temp: p.battery_temp,
        flight_mode: clone_text(&p.flight_mode),
        gps_signal: p.gps_signal,
        satellites: p.satellites,
        rc_signal: p.rc_signal,
    }
}

/// Copies a sequence of samples.
pub fn clone_samples<V: Copy>(samples: &Vec<TelemetryPoint<V>>) -> (copy: Vec<TelemetryPoint<V>>)
    ensures
        copy@ == samples@,
{
    let mut copy: Vec<TelemetryPoint<V>> = Vec::new();
    let mut i: usize = 0;
    while i < samples.len()
        invariant
            i <= samples@.len(),
            copy@ == samples@.take(i as int),
        decreases samples@.len() - i,
    {
        copy.push(clone_point(&samples[i]));
        assert(copy@ =~= samples@.take(i + 1));
        i += 1;
    }
    assert(samples@.take(samples@.len() as int) =~= samples@);
    copy
}

/// Builds the chart records of `samples`, one for one.
pub fn raw_records<V: Copy>(samples: &Vec<TelemetryPoint<V>>) -> (records: Vec<TelemetryRecord<V>>)
    ensures
        records@ == records_of(samples@),
{
    let mut records: Vec<TelemetryRecord<V>> = Vec::new();
    let mut i: usize = 0;
    while i < samples.len()
        invariant
            i <= samples@.len(),
            records@.len() == i,
            forall|k: int| 0 <= k < i ==> records@[k] == samples@[k].record(),
        decreases samples@.len() - i,
    {
        records.push(samples[i].to_record());
        i += 1;
    }
    assert(records@ =~= records_of(samples@));
    records
}

proof fn lemma_insert_sample<V>(
    before: Seq<TelemetryPoint<V>>,
    pos: int,
    p: TelemetryPoint<V>,
)
    requires
        0 <= pos <= before.len(),
        samples_ascending(before),
        forall|k: int| 0 <= k < pos ==> (#[trigger] before[k]).timestamp_ms < p.timestamp_ms,
        forall|k: int|
            pos <= k < before.len() ==> (#[trigger] before[k]).timestamp_ms > p.timestamp_ms,
    ensures
        samples_ascending(before.insert(pos, p)),
        before.insert(pos, p).len() == before.len() + 1,
        forall|s: TelemetryPoint<V>| #[trigger]
            before.insert(pos, p).contains(s) <==> before.contains(s) || s == p,
        forall|t: i64|
            has_timestamp(before.insert(pos, p), t) <==> has_timestamp(before, t) || t
                == p.timestamp_ms,
{
    let after = before.insert(pos, p);
    assert(after.len() == before.len() + 1);
    assert(after[pos] == p);
    assert(forall|k: int| 0 <= k < pos ==> after[k] == before[k]);
    assert(forall|k: int| pos < k < after.len() ==> after[k] == before[k - 1]);
    assert forall|i: int, j: int| 0 <= i < j < after.len() implies after[i].timestamp_ms
        < after[j].timestamp_ms by {
        if j < pos {
            assert(after[i] == before[i] && after[j] == before[j]);
        } else if j == pos {
            assert(after[i] == before[i]);
        } else if i < pos {
            assert(after[i] == before[i] && after[j] == before[j - 1]);
        } else if i == pos {
            assert(after[j] == before[j - 1]);
        } else {
            assert(after[i] == before[i - 1] && after[j] == before[j - 1]);
        }
    }
    assert forall|s: TelemetryPoint<V>| #[trigger]
        after.contains(s) <==> before.contains(s) || s == p by {
        if after.contains(s) {
            let k = choose|k: int| 0 <= k < after.len() && after[k] == s;
            if k < pos {
                assert(before[k] == s);
            } else if k > pos {
                assert(before[k - 1] == s);
            }
        }
        if before.contains(s) {
            let k = choose|k: int| 0 <= k < before.len() && before[k] == s;
            if k < pos {
                assert(after[k] == s);
            } else {
                assert(after[k + 1] == s);
            }
        }
    }
    assert forall|t: i64|
        has_timestamp(after, t) <==> has_timestamp(before, t) || t == p.timestamp_ms by {
        if has_timestamp(after, t) {
            let k = choose|k: int| 0 <= k < after.len() && #[trigger] after[k].timestamp_ms == t;
            if k < pos {
                assert(before[k].timestamp_ms == t);
            } else if k > pos {
                assert(before[k - 1].timestamp_ms == t);
            }
        }
        if has_timestamp(before, t) {
            let k = choose|k: int|
                0 <= k < before.len() && #[trigger] before[k].timestamp_ms == t;
            if k < pos {
                assert(after[k].timestamp_ms == t);
            } else {
                assert(after[k + 1].timestamp_ms == t);
            }
        }
        if t == p.timestamp_ms {
            assert(after[pos].timestamp_ms == t);
        }
    }
}

/// Adds `points` to the stored samples of a flight, all or none.
///
/// Gives the new sequence, in strictly ascending order, where no timestamp
/// would occur twice, and `None` where one would.
pub fn merge_samples<V: Copy>(stored: &Vec<TelemetryPoint<V>>, points: &[TelemetryPoint<V>]) -> (merged:
    Option<Vec<TelemetryPoint<V>>>)
    requires
        samples_ascending(stored@),
    ensures
        match merged {
            Some(all) => !key_collision(stored@, points@) && is_merge(stored@, points@, all@),
            None => key_collision(stored@, points@),
        },
{
    let mut all: Vec<TelemetryPoint<V>> = clone_samples(stored);
    let mut i: usize = 0;
    assert(points@.take(0) =~= Seq::<TelemetryPoint<V>>::empty());
    while i < points.len()
        invariant
            i <= points@.len(),
            samples_ascending(all@),
            all@.len() == stored@.len() + i,
            forall|s: TelemetryPoint<V>| #[trigger]
                all@.contains(s) <==> stored@.contains(s) || points@.take(i as int).contains(s),
            forall|t: i64|
                has_timestamp(all@, t) <==> has_timestamp(stored@, t) || has_timestamp(
                    points@.take(i as int),
                    t,
                ),
            forall|a: int|
                0 <= a < i ==> !has_timestamp(stored@, #[trigger] points@[a].timestamp_ms),
            forall|a: int, b: int|
                0 <= a < b < i ==> #[trigger] points@[a].timestamp_ms
                    != #[trigger] points@[b].timestamp_ms,
        decreases points@.len() - i,
    {
        let t: i64 = points[i].timestamp_ms;
        let mut pos: usize = all.len();
        while pos > 0 && all[pos - 1].timestamp_ms > t
            invariant
                pos <= all@.len(),
                forall|k: int| pos <= k < all@.len() ==> (#[trigger] all@[k]).timestamp_ms > t,
            decreases pos,
        {
            pos -= 1;
        }
        if pos > 0 && all[pos - 1].timestamp_ms == t {
            proof {
                assert(has_timestamp(all@, t));
                if !has_timestamp(stored@, t) {
                    let earlier = points@.take(i as int);
                    let a = choose|a: int|
                        0 <= a < earlier.len() && #[trigger] earlier[a].timestamp_ms == t;
                    assert(points@[a].timestamp_ms == points@[i as int].timestamp_ms);
                }
            }
            return None;
        }
        let ghost before = all@;
        let p: TelemetryPoint<V> = clone_point(&points[i]);
        proof {
            assert forall|k: int| 0 <= k < pos implies (#[trigger] before[k]).timestamp_ms < t by {
                if k < pos - 1 {
                    assert(before[k].timestamp_ms < before[pos - 1].timestamp_ms);
                }
            }
            lemma_insert_sample(before, pos as int, p);
        }
        all.insert(pos, p);
        proof {
            let earlier = points@.take(i as int);
            let now = points@.take(i + 1);
            assert(now =~= earlier.push(p));
            assert forall|s: TelemetryPoint<V>| #[trigger]
                now.contains(s) <==> earlier.contains(s) || s == p by {
                if now.contains(s) {
                    let k = choose|k: int| 0 <= k < now.len() && now[k] == s;
                    if k < i {
                        assert(earlier[k] == s);
                    }
                }
                if earlier.contains(s) {
                    let k = choose|k: int| 0 <= k < earlier.len() && earlier[k] == s;
                    assert(now[k] == s);
                }
                assert(now[i as int] == p);
            }
            assert forall|u: i64|
                has_timestamp(now, u) <==> has_timestamp(earlier, u) || u == t by {
                if has_timestamp(now, u) {
                    let k = choose|k: int|
                        0 <= k < now.len() && #[trigger] now[k].timestamp_ms == u;
                    if k < i {
                        assert(earlier[k].timestamp_ms == u);
                    }
                }
                if has_timestamp(earlier, u) {
                    let k = choose|k: int|
                        0 <= k < earlier.len() && #[trigger] earlier[k].timestamp_ms == u;
                    assert(now[k].timestamp_ms == u);
                }
                assert(now[i as int].timestamp_ms == t);
            }
            assert(!has_timestamp(before, t)) by {
                if has_timestamp(before, t) {
                    let k = choose|k: int|
                        0 <= k < before.len() && #[trigger] before[k].timestamp_ms == t;
                    if k < pos {
                        assert(before[k].timestamp_ms < t);
                    } else {
                        assert(before[k].timestamp_ms > t);
                    }
                }
            }
            assert forall|a: int| 0 <= a < i implies #[trigger] points@[a].timestamp_ms != t by {
                if points@[a].timestamp_ms == t {
                    assert(earlier[a].timestamp_ms == t);
                    assert(has_timestamp(earlier, t));
                }
            }
        }
        i += 1;
    }
    assert(points@.take(points@.len() as int) =~= points@);
    Some(all)
}

} // verus!

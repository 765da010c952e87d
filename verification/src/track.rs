//! Decimation of a flight's positions for drawing its track on a map.
//!
//! A map needs real positions, so the track is thinned by keeping every n-th
//! position rather than by averaging.

use crate::models::TelemetryPoint;
use crate::sequences::{lemma_filter_ends, lemma_filter_keeps, lemma_filter_push, lemma_filter_step};
use crate::series::samples_ascending;
use vstd::arithmetic::div_mod::{lemma_fundamental_div_mod, lemma_fundamental_div_mod_converse};
use vstd::prelude::*;

verus! {

/// The samples that carry a position, in order.
pub open spec fn positions<V>(points: Seq<TelemetryPoint<V>>) -> Seq<TelemetryPoint<V>> {
    points.filter(|p: TelemetryPoint<V>| p.has_position())
}

/// The step between kept positions: the positions divided by the budget, and
/// at least one.
pub open spec fn track_stride(positions: int, max_points: int) -> int {
    if positions / max_points > 1 {
        positions / max_points
    } else {
        1
    }
}

/// Every `stride`-th of `items`, counted from one: the items whose rank is a
/// multiple of `stride`.
pub open spec fn every_nth<T>(items: Seq<T>, stride: int) -> Seq<T> {
    Seq::new((items.len() as int / stride) as nat, |k: int| items[(k + 1) * stride - 1])
}

/// The samples that enter the track under a budget of `max_points`: every
/// n-th of the samples that carry a position, less those without an altitude.
pub open spec fn kept_samples<V>(points: Seq<TelemetryPoint<V>>, max_points: int) -> Seq<
    TelemetryPoint<V>,
> {
    let located = positions(points);
    every_nth(located, track_stride(located.len() as int, max_points)).filter(
        |p: TelemetryPoint<V>| p.altitude is Some,
    )
}

/// Longitude, latitude and altitude of a sample that has all three.
pub open spec fn track_entry<V>(p: TelemetryPoint<V>) -> Seq<V> {
    seq![p.longitude->0, p.latitude->0, p.altitude->0]
}

/// `track` is the track of `points` under a budget of `max_points`: one entry
/// for each kept sample, in the samples' order.
pub open spec fn is_track_of<V>(
    points: Seq<TelemetryPoint<V>>,
    max_points: int,
    track: Seq<[V; 3]>,
) -> bool {
    let kept = kept_samples(points, max_points);
    &&& track.len() == kept.len()
    &&& forall|k: int| 0 <= k < track.len() ==> (#[trigger] track[k])@ == track_entry(kept[k])
}

proof fn lemma_nth_index(k: int, stride: int, n: int)
    requires
        stride > 0,
        0 <= k < n / stride,
    ensures
        0 <= (k + 1) * stride - 1 < n,
{
    lemma_fundamental_div_mod(n, stride);
    let q = n / stride;
    assert((k + 1) * stride <= q * stride) by (nonlinear_arith)
        requires
            k + 1 <= q,
            stride > 0,
    ;
    assert(q * stride == stride * q) by (nonlinear_arith);
    assert((k + 1) * stride >= stride) by (nonlinear_arith)
        requires
            k >= 0,
            stride > 0,
    ;
}

proof fn lemma_every_nth_push<T>(items: Seq<T>, stride: int, x: T)
    requires
        stride > 0,
    ensures
        every_nth(items.push(x), stride) == if (items.len() as int + 1) % stride == 0 {
            every_nth(items, stride).push(x)
        } else {
            every_nth(items, stride)
        },
{
    let n = items.len() as int;
    let before = every_nth(items, stride);
    let after = every_nth(items.push(x), stride);
    lemma_fundamental_div_mod(n, stride);
    lemma_fundamental_div_mod(n + 1, stride);
    let q = n / stride;
    if (n + 1) % stride == 0 {
        assert((n + 1) / stride == q + 1) by (nonlinear_arith)
            requires
                stride > 0,
                n == stride * q + n % stride,
                0 <= n % stride < stride,
                n + 1 == stride * ((n + 1) / stride),
        ;
        assert((q + 1) * stride - 1 == n) by (nonlinear_arith)
            requires
                n + 1 == stride * ((n + 1) / stride),
                (n + 1) / stride == q + 1,
        ;
        assert forall|k: int| 0 <= k < after.len() implies #[trigger] after[k] == before.push(
            x,
        )[k] by {
            if k < q {
                lemma_nth_index(k, stride, n);
            }
        }
        assert(after =~= before.push(x));
    } else {
        assert((n + 1) / stride == q) by (nonlinear_arith)
            requires
                stride > 0,
                n == stride * q + n % stride,
                0 <= n % stride < stride,
                n + 1 == stride * ((n + 1) / stride) + (n + 1) % stride,
                0 < (n + 1) % stride < stride,
        ;
        assert forall|k: int| 0 <= k < after.len() implies #[trigger] after[k] == before[k] by {
            lemma_nth_index(k, stride, n);
        }
        assert(after =~= before);
    }
}

proof fn lemma_every_nth_ascends<V>(located: Seq<TelemetryPoint<V>>, stride: int)
    requires
        stride > 0,
        samples_ascending(located),
    ensures
        samples_ascending(every_nth(located, stride)),
        forall|k: int|
            0 <= k < every_nth(located, stride).len() ==> located.contains(
                #[trigger] every_nth(located, stride)[k],
            ),
{
    let n = located.len() as int;
    let picked = every_nth(located, stride);
    assert forall|j: int, k: int| 0 <= j < k < picked.len() implies picked[j].timestamp_ms
        < picked[k].timestamp_ms by {
        lemma_nth_index(j, stride, n);
        lemma_nth_index(k, stride, n);
        assert((j + 1) * stride < (k + 1) * stride) by (nonlinear_arith)
            requires
                j < k,
                stride > 0,
        ;
    }
    assert forall|k: int| 0 <= k < picked.len() implies located.contains(#[trigger] picked[k]) by {
        lemma_nth_index(k, stride, n);
        assert(located[(k + 1) * stride - 1] == picked[k]);
    }
}

proof fn lemma_filter_ascends<V>(points: Seq<TelemetryPoint<V>>, pred: spec_fn(TelemetryPoint<V>) -> bool)
    requires
        samples_ascending(points),
    ensures
        samples_ascending(points.filter(pred)),
    decreases points.len(),
{
    reveal(Seq::filter);
    if points.len() > 0 {
        let front = points.drop_last();
        let last = points.len() - 1;
        assert(forall|i: int| 0 <= i < front.len() ==> front[i] == points[i]);
        lemma_filter_ascends(front, pred);
        lemma_filter_keeps(front, pred);
        let kept = front.filter(pred);
        if pred(points.last()) {
            assert forall|j: int, k: int|
                0 <= j < k < kept.push(points.last()).len() implies kept.push(
                points.last(),
            )[j].timestamp_ms < kept.push(points.last())[k].timestamp_ms by {
                if k == kept.len() {
                    assert(front.contains(kept[j]));
                    let i = choose|i: int| 0 <= i < front.len() && front[i] == kept[j];
                    assert(points[i].timestamp_ms < points[last].timestamp_ms);
                }
            }
        }
    }
}

/// A track is in the order of the flight: where the samples strictly ascend
/// in time so do the kept ones, and each kept one is a sample of the flight
/// that has a longitude, a latitude and an altitude.
pub proof fn lemma_track_in_order<V>(points: Seq<TelemetryPoint<V>>, max_points: int)
    requires
        max_points > 0,
        samples_ascending(points),
    ensures
        samples_ascending(kept_samples(points, max_points)),
        forall|k: int|
            0 <= k < kept_samples(points, max_points).len() ==> {
                let p = #[trigger] kept_samples(points, max_points)[k];
                &&& points.contains(p)
                &&& p.longitude is Some
                &&& p.latitude is Some
                &&& p.altitude is Some
            },
{
    let located_pred = |p: TelemetryPoint<V>| p.has_position();
    let high_pred = |p: TelemetryPoint<V>| p.altitude is Some;
    let located = positions(points);
    let stride = track_stride(located.len() as int, max_points);
    let picked = every_nth(located, stride);
    lemma_filter_ascends(points, located_pred);
    lemma_filter_keeps(points, located_pred);
    lemma_every_nth_ascends(located, stride);
    lemma_filter_ascends(picked, high_pred);
    lemma_filter_keeps(picked, high_pred);
    assert forall|k: int| 0 <= k < kept_samples(points, max_points).len() implies {
        let p = #[trigger] kept_samples(points, max_points)[k];
        &&& points.contains(p)
        &&& p.longitude is Some
        &&& p.latitude is Some
        &&& p.altitude is Some
    } by {
        let p = kept_samples(points, max_points)[k];
        assert(picked.contains(p));
        let a = choose|a: int| 0 <= a < picked.len() && picked[a] == p;
        assert(located.contains(picked[a]));
        let b = choose|b: int| 0 <= b < located.len() && located[b] == p;
        assert(located_pred(located[b]) && points.contains(located[b]));
    }
}

/// A track stays within its budget where the positions are fewer than the
/// budget, or where their remainder by the budget is less than their quotient.
pub proof fn lemma_track_within_budget<V>(
    points: Seq<TelemetryPoint<V>>,
    max_points: int,
    track: Seq<[V; 3]>,
)
    requires
        max_points > 0,
        is_track_of(points, max_points, track),
        positions(points).len() < max_points || positions(points).len() as int % max_points
            < positions(points).len() as int / max_points,
    ensures
        track.len() <= max_points,
{
    let count = positions(points).len() as int;
    let stride = track_stride(count, max_points);
    lemma_filter_keeps(
        every_nth(positions(points), stride),
        |p: TelemetryPoint<V>| p.altitude is Some,
    );
    lemma_fundamental_div_mod(count, max_points);
    lemma_fundamental_div_mod(count, stride);
    let q = count / max_points;
    let r = count % max_points;
    if count < max_points {
        lemma_fundamental_div_mod_converse(count, max_points, 0, count);
        assert(stride == 1);
        assert(count / 1 == count);
    } else if q <= 1 {
        assert(q >= 1) by (nonlinear_arith)
            requires
                count >= max_points,
                count == max_points * q + r,
                r < max_points,
                max_points > 0,
        ;
        assert(stride == 1);
        assert(count / 1 == count);
        assert(count == max_points) by (nonlinear_arith)
            requires
                q == 1,
                r < q,
                0 <= r,
                count == max_points * q + r,
        ;
    } else {
        assert(stride == q);
        assert(count / q <= max_points) by (nonlinear_arith)
            requires
                q > 1,
                0 <= r < q,
                count == max_points * q + r,
                count == q * (count / q) + count % q,
                0 <= count % q < q,
        ;
    }
}

/// Counts the samples that carry a position.
fn count_positions<V: Copy>(points: &Vec<TelemetryPoint<V>>) -> (count: usize)
    ensures
        count == positions(points@).len(),
{
    let mut count: usize = 0;
    let mut i: usize = 0;
    let ghost located = |p: TelemetryPoint<V>| p.has_position();
    proof {
        lemma_filter_ends(points@, located);
    }
    while i < points.len()
        invariant
            i <= points@.len(),
            located == |p: TelemetryPoint<V>| p.has_position(),
            count <= i,
            count == points@.take(i as int).filter(located).len(),
        decreases points@.len() - i,
    {
        proof {
            lemma_filter_step(points@, located, i as int);
        }
        if points[i].latitude.is_some() && points[i].longitude.is_some() {
            count += 1;
        }
        i += 1;
    }
    count
}

/// Thins the positions of `points` to about `max_points` for a map.
///
/// The step is the number of positions divided by the budget, and at least
/// one. Of the samples that carry a latitude and a longitude, each whose rank,
/// counted from one, is a multiple of the step is kept, in the samples'
/// order; one that has no altitude is then left out.
pub fn decimate_track<V: Copy>(points: &Vec<TelemetryPoint<V>>, max_points: usize) -> (track: Vec<
    [V; 3],
>)
    requires
        max_points > 0,
    ensures
        is_track_of(points@, max_points as int, track@),
{
    let count: usize = count_positions(points);
    let share: usize = count / max_points;
    let stride: usize = if share > 1 {
        share
    } else {
        1
    };
    let mut track: Vec<[V; 3]> = Vec::new();
    let mut rank: usize = 0;
    let mut i: usize = 0;
    let ghost located = |p: TelemetryPoint<V>| p.has_position();
    let ghost high = |p: TelemetryPoint<V>| p.altitude is Some;
    proof {
        lemma_filter_ends(points@, located);
        assert(every_nth(Seq::<TelemetryPoint<V>>::empty(), stride as int) =~= Seq::<
            TelemetryPoint<V>,
        >::empty());
        lemma_filter_ends(Seq::<TelemetryPoint<V>>::empty(), high);
        assert(Seq::<TelemetryPoint<V>>::empty().take(0) =~= Seq::<TelemetryPoint<V>>::empty());
    }
    while i < points.len()
        invariant
            i <= points@.len(),
            stride > 0,
            located == |p: TelemetryPoint<V>| p.has_position(),
            high == |p: TelemetryPoint<V>| p.altitude is Some,
            rank <= i,
            rank == points@.take(i as int).filter(located).len(),
            track@.len() == every_nth(points@.take(i as int).filter(located), stride as int).filter(
                high,
            ).len(),
            forall|k: int|
                0 <= k < track@.len() ==> (#[trigger] track@[k])@ == track_entry(
                    every_nth(points@.take(i as int).filter(located), stride as int).filter(
                        high,
                    )[k],
                ),
        decreases points@.len() - i,
    {
        let p = &points[i];
        proof {
            let before = points@.take(i as int).filter(located);
            lemma_filter_step(points@, located, i as int);
            if located(points@[i as int]) {
                lemma_every_nth_push(before, stride as int, points@[i as int]);
                if (before.len() as int + 1) % (stride as int) == 0 {
                    lemma_filter_push(every_nth(before, stride as int), high, points@[i as int]);
                }
            }
        }
        match (p.longitude, p.latitude) {
            (Some(lon), Some(lat)) => {
                rank += 1;
                if rank % stride == 0 {
                    match p.altitude {
                        Some(alt) => {
                            let entry: [V; 3] = [lon, lat, alt];
                            assert(entry@ =~= track_entry(points@[i as int]));
                            track.push(entry);
                        },
                        None => {},
                    }
                }
            },
            _ => {},
        }
        i += 1;
    }
    track
}

} // verus!

//! Time-bucket downsampling of one flight's records.
//!
//! A flight with more records than a chart can show is cut into buckets of
//! equal width. Each bucket that holds a record yields one record: the mean of
//! every measurement, the rounded mean of battery charge and signal strength,
//! and the most frequent satellite count and flight mode.

use crate::aggregate::{
    is_mode_index, mean_rounded, mode_of_numbers, mode_of_texts, present, rounded_mean,
    text_views,
};
use crate::sequences::{lemma_filter_has_source, lemma_filter_of_run};
use crate::models::{
    channel_series, clone_text, gauge_series, strictly_ascending, Channel, Gauge,
    TelemetryRecord,
};
use vstd::arithmetic::div_mod::{
    lemma_div_is_ordered, lemma_fundamental_div_mod, lemma_fundamental_div_mod_converse,
    lemma_mod_multiples_basic,
};
use vstd::prelude::*;

verus! {

/// No bucket is narrower than this many milliseconds.
pub const MIN_BUCKET_MS: i64 = 1000;

/// The width of the buckets for a flight that runs from `first_ms` to `last_ms`
/// and is to be shown with about `target_points` records.
pub open spec fn bucket_width(first_ms: int, last_ms: int, target_points: int) -> int {
    let even_share = (last_ms - first_ms) / target_points;
    if even_share > MIN_BUCKET_MS {
        even_share
    } else {
        MIN_BUCKET_MS as int
    }
}

/// The start of the bucket that holds `timestamp_ms`: the largest multiple of
/// `width` that is not after it.
pub open spec fn bucket_start(timestamp_ms: int, width: int) -> int {
    (timestamp_ms / width) * width
}

/// The least number of buckets of `width` that cover `duration_ms`.
pub open spec fn buckets_to_cover(duration_ms: int, width: int) -> int {
    (duration_ms + width - 1) / width
}

/// No record is earlier than the one before it.
pub open spec fn ascending<V>(records: Seq<TelemetryRecord<V>>) -> bool {
    forall|i: int, j: int|
        0 <= i <= j < records.len() ==> records[i].timestamp_ms <= records[j].timestamp_ms
}

/// The records that fall into the bucket that starts at `bucket`, in order.
pub open spec fn bucket_members<V>(
    records: Seq<TelemetryRecord<V>>,
    width: int,
    bucket: int,
) -> Seq<TelemetryRecord<V>> {
    records.filter(|r: TelemetryRecord<V>| bucket_start(r.timestamp_ms as int, width) == bucket)
}

/// The flight mode of every record, in order.
pub open spec fn mode_series<V>(records: Seq<TelemetryRecord<V>>) -> Seq<Option<String>> {
    Seq::new(records.len(), |i: int| records[i].flight_mode)
}

/// `op` may be called on every list of values that is not empty.
pub open spec fn accepts_values<V, F: Fn(Vec<V>) -> V>(op: F) -> bool {
    forall|xs: Vec<V>| xs@.len() > 0 ==> call_requires(op, (xs,))
}

/// `result` is what `op` gave for a list that holds exactly `values`.
pub open spec fn yields<V, F: Fn(Vec<V>) -> V>(op: F, values: Seq<V>, result: V) -> bool {
    exists|xs: Vec<V>| #[trigger] xs@ == values && call_ensures(op, (xs,), result)
}

/// `value` is the mean, by `mean`, of what `members` hold in one measurement
/// field: absent where no member has a value.
pub open spec fn is_channel_mean<V, F: Fn(Vec<V>) -> V>(
    members: Seq<TelemetryRecord<V>>,
    c: Channel,
    value: Option<V>,
    mean: F,
) -> bool {
    let values = present(channel_series(members, c));
    if values.len() == 0 {
        value is None
    } else {
        value matches Some(m) && yields(mean, values, m)
    }
}

/// `value` is the rounded mean of what `members` hold in one small-integer
/// field: absent where no member has a value.
pub open spec fn is_gauge_mean<V>(
    members: Seq<TelemetryRecord<V>>,
    g: Gauge,
    value: Option<i32>,
) -> bool {
    let values = present(gauge_series(members, g));
    if values.len() == 0 {
        value is None
    } else {
        value matches Some(m) && m == rounded_mean(values)
    }
}

/// `value` is the most frequent of what `members` hold in one small-integer
/// field: absent where no member has a value.
pub open spec fn is_gauge_mode<V>(
    members: Seq<TelemetryRecord<V>>,
    g: Gauge,
    value: Option<i32>,
) -> bool {
    let values = present(gauge_series(members, g));
    if values.len() == 0 {
        value is None
    } else {
        value matches Some(m) && exists|k: int| is_mode_index(values, k) && #[trigger] values[k] == m
    }
}

/// `value` is the most frequent flight mode of `members`: absent where no
/// member has one.
pub open spec fn is_text_mode<V>(members: Seq<TelemetryRecord<V>>, value: Option<String>) -> bool {
    let texts = text_views(present(mode_series(members)));
    if texts.len() == 0 {
        value is None
    } else {
        value matches Some(m) && exists|k: int| is_mode_index(texts, k) && #[trigger] texts[k] == m@
    }
}

/// `record` stands for the bucket that starts at `bucket` and holds `members`.
pub open spec fn is_bucket_record<V, F: Fn(Vec<V>) -> V>(
    members: Seq<TelemetryRecord<V>>,
    bucket: int,
    record: TelemetryRecord<V>,
    mean: F,
) -> bool {
    &&& record.timestamp_ms == bucket
    &&& forall|c: Channel| #[trigger] is_channel_mean(members, c, record.channel(c), mean)
    &&& is_gauge_mean(members, Gauge::BatteryPercent, record.battery_percent)
    &&& is_gauge_mean(members, Gauge::RcSignal, record.rc_signal)
    &&& is_gauge_mode(members, Gauge::Satellites, record.satellites)
    &&& is_text_mode(members, record.flight_mode)
}

/// One of `out` stands for the bucket that starts at `bucket`.
pub open spec fn has_bucket<V>(out: Seq<TelemetryRecord<V>>, bucket: int) -> bool {
    exists|k: int| 0 <= k < out.len() && #[trigger] out[k].timestamp_ms == bucket
}

/// `out` is `records` downsampled into buckets of `width`: one record for each
/// bucket that holds a record, by ascending bucket, and no other.
pub open spec fn is_downsampling<V, F: Fn(Vec<V>) -> V>(
    records: Seq<TelemetryRecord<V>>,
    width: int,
    out: Seq<TelemetryRecord<V>>,
    mean: F,
) -> bool {
    &&& strictly_ascending(out)
    &&& forall|i: int|
        0 <= i < records.len() ==> has_bucket(
            out,
            bucket_start(#[trigger] records[i].timestamp_ms as int, width),
        )
    &&& forall|k: int|
        0 <= k < out.len() ==> {
            let members = bucket_members(records, width, #[trigger] out[k].timestamp_ms as int);
            members.len() > 0 && is_bucket_record(members, out[k].timestamp_ms as int, out[k], mean)
        }
}

/// A later timestamp never falls into an earlier bucket.
pub proof fn lemma_bucket_start_monotonic(earlier_ms: int, later_ms: int, width: int)
    requires
        width > 0,
        earlier_ms <= later_ms,
    ensures
        bucket_start(earlier_ms, width) <= bucket_start(later_ms, width),
{
    lemma_div_is_ordered(earlier_ms, later_ms, width);
    assert((earlier_ms / width) * width <= (later_ms / width) * width) by (nonlinear_arith)
        requires
            earlier_ms / width <= later_ms / width,
            width > 0,
    ;
}

/// A bucket starts at a multiple of the width, not after its timestamp and
/// less than one width before it.
pub proof fn lemma_bucket_start_bounds(timestamp_ms: int, width: int)
    requires
        width > 0,
    ensures
        bucket_start(timestamp_ms, width) % width == 0,
        bucket_start(timestamp_ms, width) <= timestamp_ms < bucket_start(timestamp_ms, width)
            + width,
        bucket_start(timestamp_ms, width) == timestamp_ms - timestamp_ms % width,
{
    lemma_fundamental_div_mod(timestamp_ms, width);
    lemma_mod_multiples_basic(timestamp_ms / width, width);
    assert(width * (timestamp_ms / width) == (timestamp_ms / width) * width) by (nonlinear_arith);
}

/// Every record that stands for a bucket starts where one of the flight's
/// records has its bucket.
pub proof fn lemma_bucket_has_member<V, F: Fn(Vec<V>) -> V>(
    records: Seq<TelemetryRecord<V>>,
    width: int,
    out: Seq<TelemetryRecord<V>>,
    mean: F,
    k: int,
)
    requires
        is_downsampling(records, width, out, mean),
        0 <= k < out.len(),
    ensures
        exists|i: int|
            0 <= i < records.len() && bucket_start(#[trigger] records[i].timestamp_ms as int, width)
                == out[k].timestamp_ms,
{
    let bucket = out[k].timestamp_ms as int;
    let pred = |r: TelemetryRecord<V>| bucket_start(r.timestamp_ms as int, width) == bucket;
    assert(bucket_members(records, width, bucket).len() > 0);
    lemma_filter_has_source(records, pred);
    let i = choose|i: int| 0 <= i < records.len() && pred(#[trigger] records[i]);
    assert(bucket_start(records[i].timestamp_ms as int, width) == out[k].timestamp_ms);
}

/// The first record of a downsampling stands for the bucket of the first
/// record of the flight, and the last for the bucket of the last.
pub proof fn lemma_downsampling_ends<V, F: Fn(Vec<V>) -> V>(
    records: Seq<TelemetryRecord<V>>,
    width: int,
    out: Seq<TelemetryRecord<V>>,
    mean: F,
)
    requires
        width > 0,
        records.len() > 0,
        ascending(records),
        is_downsampling(records, width, out, mean),
    ensures
        out.len() > 0,
        out.first().timestamp_ms == bucket_start(records.first().timestamp_ms as int, width),
        out.last().timestamp_ms == bucket_start(records.last().timestamp_ms as int, width),
{
    let low = bucket_start(records[0].timestamp_ms as int, width);
    let high = bucket_start(records[records.len() - 1].timestamp_ms as int, width);
    assert(has_bucket(out, low));
    assert(has_bucket(out, high));
    let a = choose|k: int| 0 <= k < out.len() && #[trigger] out[k].timestamp_ms == low;
    let b = choose|k: int| 0 <= k < out.len() && #[trigger] out[k].timestamp_ms == high;
    lemma_bucket_has_member(records, width, out, mean, 0);
    let i = choose|i: int|
        0 <= i < records.len() && bucket_start(#[trigger] records[i].timestamp_ms as int, width)
            == out[0].timestamp_ms;
    assert(records[0].timestamp_ms <= records[i].timestamp_ms);
    lemma_bucket_start_monotonic(
        records[0].timestamp_ms as int,
        records[i].timestamp_ms as int,
        width,
    );
    if 0 < a {
        assert(out[0].timestamp_ms < out[a].timestamp_ms);
    }
    let last = out.len() - 1;
    lemma_bucket_has_member(records, width, out, mean, last);
    let j = choose|j: int|
        0 <= j < records.len() && bucket_start(#[trigger] records[j].timestamp_ms as int, width)
            == out[last].timestamp_ms;
    assert(records[j].timestamp_ms <= records[records.len() - 1].timestamp_ms);
    lemma_bucket_start_monotonic(
        records[j].timestamp_ms as int,
        records[records.len() - 1].timestamp_ms as int,
        width,
    );
    if b < last {
        assert(out[b].timestamp_ms < out[last].timestamp_ms);
    }
}

proof fn lemma_multiples_spread<V>(out: Seq<TelemetryRecord<V>>, width: int, k: int)
    requires
        width > 0,
        strictly_ascending(out),
        forall|j: int| 0 <= j < out.len() ==> (#[trigger] out[j]).timestamp_ms as int % width == 0,
        0 <= k < out.len(),
    ensures
        out[k].timestamp_ms >= out[0].timestamp_ms + k * width,
    decreases k,
{
    if k > 0 {
        lemma_multiples_spread(out, width, k - 1);
        let a = out[k - 1].timestamp_ms as int;
        let b = out[k].timestamp_ms as int;
        assert(a < b);
        assert(a % width == 0);
        assert(b % width == 0);
        lemma_fundamental_div_mod(a, width);
        lemma_fundamental_div_mod(b, width);
        assert(b >= a + width) by (nonlinear_arith)
            requires
                a == width * (a / width),
                b == width * (b / width),
                a < b,
                width > 0,
        ;
        assert((k - 1) * width + width == k * width) by (nonlinear_arith);
    } else {
        assert(k * width == 0) by (nonlinear_arith)
            requires
                k == 0,
        ;
    }
}

/// Downsampling to a target never uses a bucket narrower than the minimum,
/// starts every bucket at a multiple of the width, and yields no more buckets
/// than cover the flight's duration, and one.
pub proof fn lemma_downsampling_is_bounded<V, F: Fn(Vec<V>) -> V>(
    records: Seq<TelemetryRecord<V>>,
    target_points: int,
    out: Seq<TelemetryRecord<V>>,
    mean: F,
)
    requires
        records.len() > 0,
        ascending(records),
        target_points > 0,
        is_downsampling(
            records,
            bucket_width(
                records.first().timestamp_ms as int,
                records.last().timestamp_ms as int,
                target_points,
            ),
            out,
            mean,
        ),
    ensures
        ({
            let first = records.first().timestamp_ms as int;
            let last = records.last().timestamp_ms as int;
            let width = bucket_width(first, last, target_points);
            &&& width >= MIN_BUCKET_MS
            &&& forall|k: int| 0 <= k < out.len() ==> (#[trigger] out[k]).timestamp_ms as int % width == 0
            &&& out.len() <= buckets_to_cover(last - first, width) + 1
        }),
{
    let first = records.first().timestamp_ms as int;
    let last = records.last().timestamp_ms as int;
    let width = bucket_width(first, last, target_points);
    let low = bucket_start(first, width);
    let high = bucket_start(last, width);
    assert forall|k: int| 0 <= k < out.len() implies (#[trigger] out[k]).timestamp_ms as int % width == 0
        && low <= out[k].timestamp_ms <= high by {
        lemma_bucket_has_member(records, width, out, mean, k);
        let i = choose|i: int|
            0 <= i < records.len() && bucket_start(#[trigger] records[i].timestamp_ms as int, width)
                == out[k].timestamp_ms;
        lemma_bucket_start_bounds(records[i].timestamp_ms as int, width);
        assert(records[0].timestamp_ms <= records[i].timestamp_ms);
        assert(records[i].timestamp_ms <= records[records.len() - 1].timestamp_ms);
        lemma_bucket_start_monotonic(first, records[i].timestamp_ms as int, width);
        lemma_bucket_start_monotonic(records[i].timestamp_ms as int, last, width);
    }
    assert(has_bucket(out, bucket_start(records[0].timestamp_ms as int, width)));
    let n = out.len() as int;
    lemma_multiples_spread(out, width, n - 1);
    lemma_bucket_start_bounds(first, width);
    lemma_bucket_start_bounds(last, width);
    // The buckets lie a width apart between `low` and `high`.
    assert((n - 1) * width <= high - low);
    assert(high - low <= last - first + width - 1);
    let cover = buckets_to_cover(last - first, width);
    lemma_fundamental_div_mod(last - first + width - 1, width);
    assert(n - 1 <= cover) by (nonlinear_arith)
        requires
            width > 0,
            (n - 1) * width <= last - first + width - 1,
            last - first + width - 1 == width * cover + (last - first + width - 1) % width,
            0 <= (last - first + width - 1) % width < width,
    ;
}

/// Computes the bucket width for a flight; `None` where it does not fit.
pub fn bucket_size_ms(first_ms: i64, last_ms: i64, target_points: usize) -> (width: Option<i64>)
    requires
        first_ms <= last_ms,
        target_points > 0,
    ensures
        match width {
            Some(w) => w == bucket_width(first_ms as int, last_ms as int, target_points as int),
            None => bucket_width(first_ms as int, last_ms as int, target_points as int)
                > i64::MAX,
        },
{
    let duration: i128 = last_ms as i128 - first_ms as i128;
    let even_share: i128 = duration / (target_points as i128);
    if even_share > MIN_BUCKET_MS as i128 {
        if even_share > i64::MAX as i128 {
            None
        } else {
            Some(even_share as i64)
        }
    } else {
        Some(MIN_BUCKET_MS)
    }
}

/// Computes the start of the bucket of a timestamp; `None` where it lies
/// before the earliest timestamp there is.
pub fn bucket_start_ms(timestamp_ms: i64, width: i64) -> (start: Option<i64>)
    requires
        width > 0,
    ensures
        match start {
            Some(b) => b == bucket_start(timestamp_ms as int, width as int),
            None => bucket_start(timestamp_ms as int, width as int) < i64::MIN,
        },
{
    proof {
        lemma_bucket_start_bounds(timestamp_ms as int, width as int);
    }
    if timestamp_ms >= 0 {
        let r: i64 = timestamp_ms % width;
        Some(timestamp_ms - r)
    } else {
        let t: i128 = timestamp_ms as i128;
        let w: i128 = width as i128;
        let m: i128 = -t;
        let q0: i128 = m / w;
        let r0: i128 = m % w;
        assert(m == q0 * w + r0 && 0 <= r0 < w) by (nonlinear_arith)
            requires
                m >= 0,
                w > 0,
                q0 == m / w,
                r0 == m % w,
        ;
        let r: i128 = if r0 == 0 {
            0
        } else {
            w - r0
        };
        proof {
            let q = if r0 == 0 {
                -q0
            } else {
                -q0 - 1
            };
            assert(t == q * w + r) by (nonlinear_arith)
                requires
                    t == -m,
                    m == q0 * w + r0,
                    (q == -q0 && r == 0 && r0 == 0) || (q == -q0 - 1 && r == w - r0),
            ;
            lemma_fundamental_div_mod_converse(t as int, w as int, q as int, r as int);
        }
        let start: i128 = t - r;
        if start < i64::MIN as i128 {
            None
        } else {
            Some(start as i64)
        }
    }
}

/// Gathers what the records from `lo` up to `hi` hold in one measurement field.
fn channel_values<V: Copy>(records: &Vec<TelemetryRecord<V>>, lo: usize, hi: usize, c: Channel) -> (values:
    Vec<V>)
    requires
        lo <= hi <= records@.len(),
    ensures
        values@ == present(channel_series(records@.subrange(lo as int, hi as int), c)),
{
    let mut values: Vec<V> = Vec::new();
    let mut i: usize = lo;
    while i < hi
        invariant
            lo <= i <= hi <= records@.len(),
            values@ == present(channel_series(records@.subrange(lo as int, i as int), c)),
        decreases hi - i,
    {
        proof {
            let before = channel_series(records@.subrange(lo as int, i as int), c);
            let after = channel_series(records@.subrange(lo as int, i + 1), c);
            assert(after.drop_last() =~= before);
            assert(after.last() == records@[i as int].channel(c));
        }
        match records[i].get_channel(c) {
            Some(v) => {
                values.push(v);
            },
            None => {},
        }
        i += 1;
    }
    values
}

/// Gathers what the records from `lo` up to `hi` hold in one small-integer field.
fn gauge_values<V: Copy>(records: &Vec<TelemetryRecord<V>>, lo: usize, hi: usize, g: Gauge) -> (values:
    Vec<i32>)
    requires
        lo <= hi <= records@.len(),
    ensures
        values@ == present(gauge_series(records@.subrange(lo as int, hi as int), g)),
{
    let mut values: Vec<i32> = Vec::new();
    let mut i: usize = lo;
    while i < hi
        invariant
            lo <= i <= hi <= records@.len(),
            values@ == present(gauge_series(records@.subrange(lo as int, i as int), g)),
        decreases hi - i,
    {
        proof {
            let before = gauge_series(records@.subrange(lo as int, i as int), g);
            let after = gauge_series(records@.subrange(lo as int, i + 1), g);
            assert(after.drop_last() =~= before);
            assert(after.last() == records@[i as int].gauge(g));
        }
        match records[i].get_gauge(g) {
            Some(v) => {
                values.push(v);
            },
            None => {},
        }
        i += 1;
    }
    values
}

/// Gathers the flight modes of the records from `lo` up to `hi`.
fn mode_values<V>(records: &Vec<TelemetryRecord<V>>, lo: usize, hi: usize) -> (values: Vec<String>)
    requires
        lo <= hi <= records@.len(),
    ensures
        values@ == present(mode_series(records@.subrange(lo as int, hi as int))),
{
    let mut values: Vec<String> = Vec::new();
    let mut i: usize = lo;
    while i < hi
        invariant
            lo <= i <= hi <= records@.len(),
            values@ == present(mode_series(records@.subrange(lo as int, i as int))),
        decreases hi - i,
    {
        proof {
            let before = mode_series(records@.subrange(lo as int, i as int));
            let after = mode_series(records@.subrange(lo as int, i + 1));
            assert(after.drop_last() =~= before);
            assert(after.last() == records@[i as int].flight_mode);
        }
        match clone_text(&records[i].flight_mode) {
            Some(v) => {
                values.push(v);
            },
            None => {},
        }
        i += 1;
    }
    values
}

/// Takes the mean of one measurement field over the records from `lo` up to `hi`.
fn channel_mean<V: Copy, F: Fn(Vec<V>) -> V>(
    records: &Vec<TelemetryRecord<V>>,
    lo: usize,
    hi: usize,
    c: Channel,
    mean: &F,
) -> (value: Option<V>)
    requires
        lo <= hi <= records@.len(),
        accepts_values(*mean),
    ensures
        is_channel_mean(records@.subrange(lo as int, hi as int), c, value, *mean),
{
    let values: Vec<V> = channel_values(records, lo, hi, c);
    if values.len() == 0 {
        None
    } else {
        let ghost held = values;
        let m: V = mean(values);
        assert(held@ == present(channel_series(records@.subrange(lo as int, hi as int), c))
            && call_ensures(*mean, (held,), m));
        Some(m)
    }
}

/// Takes the rounded mean of one small-integer field over the records from
/// `lo` up to `hi`.
fn gauge_mean<V: Copy>(records: &Vec<TelemetryRecord<V>>, lo: usize, hi: usize, g: Gauge) -> (value:
    Option<i32>)
    requires
        lo <= hi <= records@.len(),
    ensures
        is_gauge_mean(records@.subrange(lo as int, hi as int), g, value),
{
    let values: Vec<i32> = gauge_values(records, lo, hi, g);
    if values.len() == 0 {
        None
    } else {
        Some(mean_rounded(&values))
    }
}

/// Takes the most frequent value of one small-integer field over the records
/// from `lo` up to `hi`.
fn gauge_mode<V: Copy>(records: &Vec<TelemetryRecord<V>>, lo: usize, hi: usize, g: Gauge) -> (value:
    Option<i32>)
    requires
        lo <= hi <= records@.len(),
    ensures
        is_gauge_mode(records@.subrange(lo as int, hi as int), g, value),
{
    let values: Vec<i32> = gauge_values(records, lo, hi, g);
    if values.len() == 0 {
        None
    } else {
        let k: usize = mode_of_numbers(&values);
        assert(is_mode_index(values@, k as int) && values@[k as int] == values[k as int]);
        Some(values[k])
    }
}

/// Takes the most frequent flight mode of the records from `lo` up to `hi`.
fn text_mode<V>(records: &Vec<TelemetryRecord<V>>, lo: usize, hi: usize) -> (value: Option<String>)
    requires
        lo <= hi <= records@.len(),
    ensures
        is_text_mode(records@.subrange(lo as int, hi as int), value),
{
    let values: Vec<String> = mode_values(records, lo, hi);
    if values.len() == 0 {
        None
    } else {
        let k: usize = mode_of_texts(&values);
        let m: String = values[k].clone();
        assert(is_mode_index(text_views(values@), k as int) && text_views(values@)[k as int]
            == m@);
        Some(m)
    }
}

/// Builds the record that stands for the records from `lo` up to `hi`.
fn summarize<V: Copy, F: Fn(Vec<V>) -> V>(
    records: &Vec<TelemetryRecord<V>>,
    lo: usize,
    hi: usize,
    bucket: i64,
    mean: &F,
) -> (record: TelemetryRecord<V>)
    requires
        lo <= hi <= records@.len(),
        accepts_values(*mean),
    ensures
        is_bucket_record(records@.subrange(lo as int, hi as int), bucket as int, record, *mean),
{
    let record = TelemetryRecord {
        timestamp_ms: bucket,
        latitude: channel_mean(records, lo, hi, Channel::Latitude, mean),
        longitude: channel_mean(records, lo, hi, Channel::Longitude, mean),
        altitude: channel_mean(records, lo, hi, Channel::Altitude, mean),
        height: channel_mean(records, lo, hi, Channel::Height, mean),
        vps_height: channel_mean(records, lo, hi, Channel::VpsHeight, mean),
        speed: channel_mean(records, lo, hi, Channel::Speed, mean),
        battery_percent: gauge_mean(records, lo, hi, Gauge::BatteryPercent),
        battery_voltage: channel_mean(records, lo, hi, Channel::BatteryVoltage, mean),
        battery_temp: channel_mean(records, lo, hi, Channel::BatteryTemp, mean),
        pitch: channel_mean(records, lo, hi, Channel::Pitch, mean),
        roll: channel_mean(records, lo, hi, Channel::Roll, mean),
        yaw: channel_mean(records, lo, hi, Channel::Yaw, mean),
        satellites: gauge_mode(records, lo, hi, Gauge::Satellites),
        flight_mode: text_mode(records, lo, hi),
        rc_signal: gauge_mean(records, lo, hi, Gauge::RcSignal),
    };
    assert forall|c: Channel| #[trigger]
        is_channel_mean(
            records@.subrange(lo as int, hi as int),
            c,
            record.channel(c),
            *mean,
        ) by {
        match c {
            Channel::Latitude => {},
            Channel::Longitude => {},
            Channel::Altitude => {},
            Channel::Height => {},
            Channel::VpsHeight => {},
            Channel::Speed => {},
            Channel::BatteryVoltage => {},
            Channel::BatteryTemp => {},
            Channel::Pitch => {},
            Channel::Roll => {},
            Channel::Yaw => {},
        }
    }
    record
}

/// Downsamples ascending records into buckets of `width`.
///
/// Each bucket that holds a record yields one record, which starts at the
/// bucket's start; the buckets come out in ascending order. A measurement of
/// the bucket is the `mean` of the values that its records hold, battery
/// charge and signal strength are their rounded mean, satellite count and
/// flight mode their most frequent value, and each is absent where no record
/// of the bucket holds one.
pub fn downsample<V: Copy, F: Fn(Vec<V>) -> V>(
    records: &Vec<TelemetryRecord<V>>,
    width: i64,
    mean: &F,
) -> (out: Vec<TelemetryRecord<V>>)
    requires
        width > 0,
        ascending(records@),
        records@.len() > 0 ==> bucket_start(records@[0].timestamp_ms as int, width as int)
            >= i64::MIN,
        accepts_values(*mean),
    ensures
        is_downsampling(records@, width as int, out@, *mean),
{
    let n: usize = records.len();
    let mut out: Vec<TelemetryRecord<V>> = Vec::new();
    let mut lo: usize = 0;
    while lo < n
        invariant
            n == records@.len(),
            lo <= n,
            width > 0,
            ascending(records@),
            n > 0 ==> bucket_start(records@[0].timestamp_ms as int, width as int) >= i64::MIN,
            accepts_values(*mean),
            strictly_ascending(out@),
            lo == 0 <==> out@.len() == 0,
            lo > 0 ==> out@.last().timestamp_ms == bucket_start(
                records@[lo - 1].timestamp_ms as int,
                width as int,
            ),
            0 < lo < n ==> bucket_start(records@[lo - 1].timestamp_ms as int, width as int)
                != bucket_start(records@[lo as int].timestamp_ms as int, width as int),
            forall|i: int|
                0 <= i < lo ==> has_bucket(
                    out@,
                    bucket_start(#[trigger] records@[i].timestamp_ms as int, width as int),
                ),
            forall|k: int|
                0 <= k < out@.len() ==> {
                    let members = bucket_members(
                        records@,
                        width as int,
                        #[trigger] out@[k].timestamp_ms as int,
                    );
                    members.len() > 0 && is_bucket_record(
                        members,
                        out@[k].timestamp_ms as int,
                        out@[k],
                        *mean,
                    )
                },
        decreases n - lo,
    {
        proof {
            lemma_bucket_start_monotonic(
                records@[0].timestamp_ms as int,
                records@[lo as int].timestamp_ms as int,
                width as int,
            );
        }
        let started: Option<i64> = bucket_start_ms(records[lo].timestamp_ms, width);
        let bucket: i64 = started.unwrap();
        let mut hi: usize = lo + 1;
        loop
            invariant_except_break
                lo < hi <= n,
            invariant
                n == records@.len(),
                lo < n,
                width > 0,
                ascending(records@),
                bucket_start(records@[0].timestamp_ms as int, width as int) >= i64::MIN,
                bucket == bucket_start(records@[lo as int].timestamp_ms as int, width as int),
                forall|i: int|
                    lo <= i < hi ==> bucket_start(
                        #[trigger] records@[i].timestamp_ms as int,
                        width as int,
                    ) == bucket,
            ensures
                lo < hi <= n,
                hi < n ==> bucket_start(records@[hi as int].timestamp_ms as int, width as int)
                    != bucket,
            decreases n - hi,
        {
            if hi >= n {
                break ;
            }
            proof {
                lemma_bucket_start_monotonic(
                    records@[0].timestamp_ms as int,
                    records@[hi as int].timestamp_ms as int,
                    width as int,
                );
            }
            let next: Option<i64> = bucket_start_ms(records[hi].timestamp_ms, width);
            if next.unwrap() != bucket {
                break ;
            }
            hi += 1;
        }
        let record: TelemetryRecord<V> = summarize(records, lo, hi, bucket, mean);
        proof {
            let w = width as int;
            let b = bucket as int;
            let pred = |r: TelemetryRecord<V>| bucket_start(r.timestamp_ms as int, w) == b;
            assert forall|i: int| 0 <= i < n implies (pred(#[trigger] records@[i]) <==> lo <= i
                < hi) by {
                let t = records@[i].timestamp_ms as int;
                if i < lo {
                    lemma_bucket_start_monotonic(t, records@[lo - 1].timestamp_ms as int, w);
                    lemma_bucket_start_monotonic(
                        records@[lo - 1].timestamp_ms as int,
                        records@[lo as int].timestamp_ms as int,
                        w,
                    );
                } else if i >= hi {
                    lemma_bucket_start_monotonic(records@[hi as int].timestamp_ms as int, t, w);
                    lemma_bucket_start_monotonic(
                        records@[lo as int].timestamp_ms as int,
                        records@[hi as int].timestamp_ms as int,
                        w,
                    );
                }
            }
            lemma_filter_of_run(records@, pred, lo as int, hi as int);
            assert(bucket_members(records@, w, b) == records@.subrange(lo as int, hi as int));
        }
        let ghost before = out@;
        proof {
            if lo > 0 {
                lemma_bucket_start_monotonic(
                    records@[lo - 1].timestamp_ms as int,
                    records@[lo as int].timestamp_ms as int,
                    width as int,
                );
                assert(before.last().timestamp_ms < bucket);
                assert(forall|k: int|
                    0 <= k < before.len() ==> (#[trigger] before[k]).timestamp_ms
                        <= before[before.len() - 1].timestamp_ms);
            }
        }
        out.push(record);
        proof {
            assert forall|i: int| 0 <= i < hi implies has_bucket(
                out@,
                bucket_start(#[trigger] records@[i].timestamp_ms as int, width as int),
            ) by {
                if i < lo {
                    let want = bucket_start(records@[i].timestamp_ms as int, width as int);
                    assert(has_bucket(before, want));
                    let k = choose|k: int|
                        0 <= k < before.len() && #[trigger] before[k].timestamp_ms == want;
                    assert(out@[k].timestamp_ms == want);
                } else {
                    assert(out@[out@.len() - 1].timestamp_ms == bucket);
                }
            }
            assert forall|k: int| 0 <= k < out@.len() implies {
                let members = bucket_members(
                    records@,
                    width as int,
                    #[trigger] out@[k].timestamp_ms as int,
                );
                members.len() > 0 && is_bucket_record(
                    members,
                    out@[k].timestamp_ms as int,
                    out@[k],
                    *mean,
                )
            } by {
                if k < before.len() {
                    assert(out@[k] == before[k]);
                }
            }
        }
        lo = hi;
    }
    out
}

} // verus!

//! Aggregates over the small-integer and text fields of a bucket of samples:
//! the mean rounded to the nearest integer, and the most frequent value.

use vstd::arithmetic::div_mod::lemma_fundamental_div_mod_converse;
use vstd::prelude::*;

verus! {

/// The values that a column holds, in order, absent entries left out.
pub open spec fn present<T>(column: Seq<Option<T>>) -> Seq<T>
    decreases column.len(),
{
    if column.len() == 0 {
        Seq::empty()
    } else {
        match column.last() {
            Some(v) => present(column.drop_last()).push(v),
            None => present(column.drop_last()),
        }
    }
}

/// The sum of `values`.
pub open spec fn total(values: Seq<i32>) -> int
    decreases values.len(),
{
    if values.len() == 0 {
        0
    } else {
        total(values.drop_last()) + values.last()
    }
}

/// The integer nearest to `sum / count`; of two equally near, the even one.
pub open spec fn nearest_quotient(sum: int, count: int) -> int
    recommends
        count > 0,
{
    let q = sum / count;
    let r = sum % count;
    if 2 * r < count {
        q
    } else if 2 * r > count {
        q + 1
    } else if q % 2 == 0 {
        q
    } else {
        q + 1
    }
}

/// The mean of `values`, rounded to the nearest integer, ties to even.
pub open spec fn rounded_mean(values: Seq<i32>) -> int
    recommends
        values.len() > 0,
{
    nearest_quotient(total(values), values.len() as int)
}

/// How often `v` occurs in `values`.
pub open spec fn occurrences<T>(values: Seq<T>, v: T) -> nat
    decreases values.len(),
{
    if values.len() == 0 {
        0
    } else if values.last() == v {
        occurrences(values.drop_last(), v) + 1
    } else {
        occurrences(values.drop_last(), v)
    }
}

/// `k` is where the most frequent value of `values` first occurs; of several
/// values that are equally frequent, the one that occurs first counts.
pub open spec fn is_mode_index<T>(values: Seq<T>, k: int) -> bool {
    &&& 0 <= k < values.len()
    &&& forall|j: int|
        0 <= j < values.len() ==> occurrences(values, #[trigger] values[j]) <= occurrences(
            values,
            values[k],
        )
    &&& forall|j: int|
        0 <= j < k ==> occurrences(values, #[trigger] values[j]) < occurrences(values, values[k])
}

/// The characters of each text.
pub open spec fn text_views(texts: Seq<String>) -> Seq<Seq<char>> {
    Seq::new(texts.len(), |i: int| texts[i]@)
}

/// No rounded mean is farther than one half from the exact mean.
pub proof fn lemma_nearest_quotient_is_nearest(sum: int, count: int)
    requires
        count > 0,
    ensures
        -count <= 2 * (sum - nearest_quotient(sum, count) * count) <= count,
{
    let q = sum / count;
    let r = sum % count;
    assert(sum == q * count + r && 0 <= r < count) by (nonlinear_arith)
        requires
            count > 0,
            q == sum / count,
            r == sum % count,
    ;
    assert((q + 1) * count == q * count + count) by (nonlinear_arith);
}

/// A rounded mean lies between the smallest and the largest value.
pub proof fn lemma_nearest_quotient_bounds(sum: int, count: int, low: int, high: int)
    requires
        count > 0,
        low * count <= sum <= high * count,
    ensures
        low <= nearest_quotient(sum, count) <= high,
{
    let q = sum / count;
    let r = sum % count;
    assert(sum == q * count + r && 0 <= r < count) by (nonlinear_arith)
        requires
            count > 0,
            q == sum / count,
            r == sum % count,
    ;
    assert(low <= q) by (nonlinear_arith)
        requires
            count > 0,
            low * count <= q * count + r,
            r < count,
    ;
    assert(q <= high) by (nonlinear_arith)
        requires
            count > 0,
            q * count + r <= high * count,
            0 <= r,
    ;
    if r > 0 {
        assert(q + 1 <= high) by (nonlinear_arith)
            requires
                count > 0,
                q * count + r <= high * count,
                0 < r,
        ;
    }
}

/// Rounds the mean of `values` to the nearest integer, ties to even.
pub fn mean_rounded(values: &Vec<i32>) -> (mean: i32)
    requires
        values@.len() > 0,
    ensures
        mean == rounded_mean(values@),
{
    let n: usize = values.len();
    let mut sum: i128 = 0;
    let mut i: usize = 0;
    while i < n
        invariant
            n == values@.len(),
            i <= n,
            sum == total(values@.take(i as int)),
            i32::MIN * i <= sum <= i32::MAX * i,
        decreases n - i,
    {
        assert(values@.take(i + 1).drop_last() =~= values@.take(i as int));
        sum = sum + values[i] as i128;
        i += 1;
    }
    assert(values@.take(n as int) =~= values@);
    let count: i128 = n as i128;
    let mut q: i128;
    let mut r: i128;
    if sum >= 0 {
        q = sum / count;
        r = sum % count;
        assert(sum == q * count + r && 0 <= r < count) by (nonlinear_arith)
            requires
                sum >= 0,
                count > 0,
                q == sum / count,
                r == sum % count,
        ;
    } else {
        let m: i128 = -sum;
        let q0: i128 = m / count;
        let r0: i128 = m % count;
        assert(m == q0 * count + r0 && 0 <= r0 < count && q0 <= m) by (nonlinear_arith)
            requires
                m >= 0,
                count > 0,
                q0 == m / count,
                r0 == m % count,
        ;
        if r0 == 0 {
            q = -q0;
            r = 0;
        } else {
            q = -q0 - 1;
            r = count - r0;
        }
        assert(sum == q * count + r) by (nonlinear_arith)
            requires
                sum == -m,
                m == q0 * count + r0,
                (q == -q0 && r == 0 && r0 == 0) || (q == -q0 - 1 && r == count - r0),
        ;
    }
    proof {
        lemma_fundamental_div_mod_converse(sum as int, count as int, q as int, r as int);
        lemma_nearest_quotient_bounds(
            sum as int,
            count as int,
            i32::MIN as int,
            i32::MAX as int,
        );
    }
    let magnitude: i128 = if q >= 0 {
        q
    } else {
        -q
    };
    let even: bool = magnitude % 2 == 0;
    assert(even == (q % 2 == 0)) by {
        let h = magnitude / 2;
        if even {
            assert(magnitude == 2 * h);
            if q < 0 {
                lemma_fundamental_div_mod_converse(q as int, 2, -h, 0);
            }
        } else {
            assert(magnitude == 2 * h + 1);
            if q < 0 {
                lemma_fundamental_div_mod_converse(q as int, 2, -h - 1, 1);
            }
        }
    }
    let rounded: i128 = if 2 * r < count {
        q
    } else if 2 * r > count {
        q + 1
    } else if even {
        q
    } else {
        q + 1
    };
    rounded as i32
}

/// Counts how often `v` occurs in `values`.
fn count_number(values: &Vec<i32>, v: i32) -> (count: usize)
    ensures
        count == occurrences(values@, v),
{
    let mut count: usize = 0;
    let mut i: usize = 0;
    while i < values.len()
        invariant
            i <= values@.len(),
            count <= i,
            count == occurrences(values@.take(i as int), v),
        decreases values@.len() - i,
    {
        assert(values@.take(i + 1).drop_last() =~= values@.take(i as int));
        if values[i] == v {
            count += 1;
        }
        i += 1;
    }
    assert(values@.take(values@.len() as int) =~= values@);
    count
}

/// Counts how often the text `v` occurs in `texts`.
fn count_text(texts: &Vec<String>, v: &String) -> (count: usize)
    ensures
        count == occurrences(text_views(texts@), v@),
{
    let mut count: usize = 0;
    let mut i: usize = 0;
    while i < texts.len()
        invariant
            i <= texts@.len(),
            count <= i,
            count == occurrences(text_views(texts@).take(i as int), v@),
        decreases texts@.len() - i,
    {
        assert(text_views(texts@).take(i + 1).drop_last() =~= text_views(texts@).take(i as int));
        if texts[i] == *v {
            count += 1;
        }
        i += 1;
    }
    assert(text_views(texts@).take(texts@.len() as int) =~= text_views(texts@));
    count
}

/// Finds where the most frequent of `values` first occurs.
pub fn mode_of_numbers(values: &Vec<i32>) -> (k: usize)
    requires
        values@.len() > 0,
    ensures
        is_mode_index(values@, k as int),
{
    let mut best: usize = 0;
    let mut best_count: usize = count_number(values, values[0]);
    let mut i: usize = 1;
    while i < values.len()
        invariant
            1 <= i <= values@.len(),
            best < i,
            best_count == occurrences(values@, values@[best as int]),
            forall|j: int|
                0 <= j < i ==> occurrences(values@, #[trigger] values@[j]) <= best_count,
            forall|j: int|
                0 <= j < best ==> occurrences(values@, #[trigger] values@[j]) < best_count,
        decreases values@.len() - i,
    {
        let c: usize = count_number(values, values[i]);
        if c > best_count {
            best = i;
            best_count = c;
        }
        i += 1;
    }
    best
}

/// Finds where the most frequent of `texts` first occurs.
pub fn mode_of_texts(texts: &Vec<String>) -> (k: usize)
    requires
        texts@.len() > 0,
    ensures
        is_mode_index(text_views(texts@), k as int),
{
    let mut best: usize = 0;
    let mut best_count: usize = count_text(texts, &texts[0]);
    let mut i: usize = 1;
    while i < texts.len()
        invariant
            1 <= i <= texts@.len(),
            best < i,
            best_count == occurrences(text_views(texts@), text_views(texts@)[best as int]),
            forall|j: int|
                0 <= j < i ==> occurrences(text_views(texts@), #[trigger] text_views(texts@)[j])
                    <= best_count,
            forall|j: int|
                0 <= j < best ==> occurrences(
                    text_views(texts@),
                    #[trigger] text_views(texts@)[j],
                ) < best_count,
        decreases texts@.len() - i,
    {
        let c: usize = count_text(texts, &texts[i]);
        if c > best_count {
            best = i;
            best_count = c;
        }
        i += 1;
    }
    best
}

} // verus!

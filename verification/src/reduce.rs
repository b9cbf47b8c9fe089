//! The Largest-Triangle-Three-Buckets reduction.
//!
//! The series is split into `n - 2` contiguous buckets; each bucket
//! contributes the point whose triangle against the previously chosen point
//! and the arithmetic mean of the next bucket has the largest area, with the
//! later candidate winning ties. The first and last point of the series are
//! always kept.

use vstd::prelude::*;
use vstd::arithmetic::div_mod::{
    lemma_div_by_multiple,
    lemma_div_is_ordered,
    lemma_div_pos_is_pos,
    lemma_hoist_over_denominator,
};
use vstd::arithmetic::mul::{lemma_mul_inequality, lemma_mul_is_commutative};
use crate::scalar::Real;
use crate::series::{gather, LttbError, Point};

verus! {

/// The boundary before bucket `b`: `floor(b * step) + 1`, with the real-valued
/// `step = (len - 2) / (n - 2)`.
pub open spec fn bucket_edge(len: int, n: int, b: int) -> int
    recommends
        3 <= n <= len,
        0 <= b,
{
    b * (len - 2) / (n - 2) + 1
}

proof fn lemma_edge_mono(len: int, n: int, b1: int, b2: int)
    requires
        3 <= n <= len,
        0 <= b1 <= b2,
    ensures
        bucket_edge(len, n, b1) <= bucket_edge(len, n, b2),
{
    lemma_mul_inequality(b1, b2, len - 2);
    lemma_div_is_ordered(b1 * (len - 2), b2 * (len - 2), n - 2);
}

proof fn lemma_edge_step(len: int, n: int, b: int)
    requires
        3 <= n <= len,
        0 <= b,
    ensures
        bucket_edge(len, n, b) + 1 <= bucket_edge(len, n, b + 1),
{
    assert((b + 1) * (len - 2) == b * (len - 2) + (len - 2)) by (nonlinear_arith);
    lemma_hoist_over_denominator(b * (len - 2), 1, (n - 2) as nat);
    lemma_div_is_ordered(b * (len - 2) + (n - 2), (b + 1) * (len - 2), n - 2);
}

proof fn lemma_edge_range(len: int, n: int, b: int)
    requires
        3 <= n <= len,
        0 <= b <= n - 2,
    ensures
        1 <= bucket_edge(len, n, b) <= len - 1,
        b == 0 ==> bucket_edge(len, n, b) == 1,
        b == n - 2 ==> bucket_edge(len, n, b) == len - 1,
{
    lemma_div_pos_is_pos(b * (len - 2), n - 2);
    lemma_mul_inequality(b, n - 2, len - 2);
    lemma_div_is_ordered(b * (len - 2), (n - 2) * (len - 2), n - 2);
    lemma_mul_is_commutative(n - 2, len - 2);
    lemma_div_by_multiple(len - 2, n - 2);
    if b == 0 {
        assert(0 * (len - 2) == 0);
        assert(0int / (n - 2) == 0) by {
            lemma_div_pos_is_pos(0, n - 2);
            lemma_div_is_ordered(0, 0, n - 2);
            lemma_div_by_multiple(0, n - 2);
            assert(0 * (n - 2) == 0);
        }
    }
    if b == n - 2 {
        lemma_mul_is_commutative(len - 2, n - 2);
    }
}

/// The signed-area magnitude of the triangle `(a, b, c)`, by the shoelace
/// cross product; the constant half factor is dropped, since only the
/// arg-max over a bucket is used.
pub open spec fn area_spec<T: Real>(a: Point<T>, b: Point<T>, c: Point<T>) -> T {
    ((a.x.minus_spec(c.x)).times_spec(b.y.minus_spec(a.y))).minus_spec(
        (a.x.minus_spec(b.x)).times_spec(c.y.minus_spec(a.y)),
    ).abs_spec()
}

/// The sum of the abscissas of `s`, folded left to right.
pub open spec fn sum_x<T: Real>(s: Seq<Point<T>>) -> T
    decreases s.len(),
{
    if s.len() == 0 {
        T::zero_spec()
    } else {
        sum_x(s.drop_last()).plus_spec(s.last().x)
    }
}

/// The sum of the ordinates of `s`, folded left to right.
pub open spec fn sum_y<T: Real>(s: Seq<Point<T>>) -> T
    decreases s.len(),
{
    if s.len() == 0 {
        T::zero_spec()
    } else {
        sum_y(s.drop_last()).plus_spec(s.last().y)
    }
}

/// The coordinate-wise arithmetic mean of `s`.
pub open spec fn mean_spec<T: Real>(s: Seq<Point<T>>) -> Point<T>
    recommends
        s.len() >= 1,
{
    Point {
        x: sum_x(s).div_count_spec(s.len() as usize),
        y: sum_y(s).div_count_spec(s.len() as usize),
    }
}

/// The offset inside the bucket `cand` of the candidate the reduction keeps:
/// the one whose triangle against `prev` and `avg` has the largest area, the
/// later candidate winning ties.
///
/// The recursion mirrors a left-to-right maximum scan that replaces the
/// running best whenever the best's area compares less than or equal to the
/// newcomer's.
pub open spec fn pick_spec<T: Real>(prev: Point<T>, cand: Seq<Point<T>>, avg: Point<T>) -> int
    decreases cand.len(),
{
    if cand.len() <= 1 {
        0
    } else {
        let j = pick_spec(prev, cand.drop_last(), avg);
        if area_spec(prev, cand[j], avg).le_spec(area_spec(prev, cand.last(), avg)) {
            cand.len() - 1
        } else {
            j
        }
    }
}

pub proof fn lemma_pick_in_range<T: Real>(prev: Point<T>, cand: Seq<Point<T>>, avg: Point<T>)
    requires
        cand.len() >= 1,
    ensures
        0 <= pick_spec(prev, cand, avg) < cand.len(),
    decreases cand.len(),
{
    if cand.len() > 1 {
        lemma_pick_in_range(prev, cand.drop_last(), avg);
    }
}

/// The absolute index the reduction keeps for bucket `b`, the previously kept
/// index being `prev_idx`.
pub open spec fn chosen_index<T: Real>(s: Seq<Point<T>>, n: int, b: int, prev_idx: int) -> int
    recommends
        3 <= n <= s.len(),
        0 <= b <= n - 3,
        0 <= prev_idx < s.len(),
{
    let len = s.len() as int;
    let start = bucket_edge(len, n, b);
    let end = bucket_edge(len, n, b + 1);
    let next_end = if bucket_edge(len, n, b + 2) > len {
        len
    } else {
        bucket_edge(len, n, b + 2)
    };
    let avg = mean_spec(s.subrange(end, next_end));
    start + pick_spec(s[prev_idx], s.subrange(start, end), avg)
}

/// The indices kept after the first point and the buckets `0 .. b`.
pub open spec fn lttb_indices_rec<T: Real>(s: Seq<Point<T>>, n: int, b: int) -> Seq<int>
    decreases b,
{
    if b <= 0 {
        seq![0int]
    } else {
        let pre = lttb_indices_rec(s, n, b - 1);
        pre.push(chosen_index(s, n, b - 1, pre.last()))
    }
}

/// The indices the reduction keeps: the first point, one point per bucket,
/// and the last point.
pub open spec fn lttb_indices<T: Real>(s: Seq<Point<T>>, n: int) -> Seq<int> {
    lttb_indices_rec(s, n, n - 2).push(s.len() - 1)
}

/// The reduced series: the points of `s` at the kept indices.
pub open spec fn lttb_spec<T: Real>(s: Seq<Point<T>>, n: int) -> Seq<Point<T>> {
    gather(s, lttb_indices(s, n))
}

pub proof fn lemma_indices_rec_shape<T: Real>(s: Seq<Point<T>>, n: int, b: int)
    requires
        3 <= n <= s.len(),
        0 <= b <= n - 2,
    ensures
        lttb_indices_rec(s, n, b).len() == b + 1,
        lttb_indices_rec(s, n, b)[0] == 0,
        forall|k: int|
            1 <= k <= b ==> bucket_edge(s.len() as int, n, k - 1)
                <= #[trigger] lttb_indices_rec(s, n, b)[k] < bucket_edge(s.len() as int, n, k),
        forall|i: int, j: int|
            0 <= i < j <= b ==> #[trigger] lttb_indices_rec(s, n, b)[i]
                < #[trigger] lttb_indices_rec(s, n, b)[j],
        forall|k: int| 0 <= k <= b ==> 0 <= #[trigger] lttb_indices_rec(s, n, b)[k] <= s.len() - 1,
    decreases b,
{
    let len = s.len() as int;
    if b == 0 {
    } else {
        lemma_indices_rec_shape(s, n, b - 1);
        let pre = lttb_indices_rec(s, n, b - 1);
        let start = bucket_edge(len, n, b - 1);
        let end = bucket_edge(len, n, b);
        lemma_edge_step(len, n, b - 1);
        lemma_edge_range(len, n, b - 1);
        lemma_edge_range(len, n, b);
        lemma_pick_in_range(s[pre.last()], s.subrange(start, end), mean_of_next(s, n, b - 1));
        assert forall|i: int, j: int| 0 <= i < j <= b implies #[trigger] lttb_indices_rec(
            s,
            n,
            b,
        )[i] < #[trigger] lttb_indices_rec(s, n, b)[j] by {
            if j < b {
            } else {
                if i >= 1 {
                    lemma_edge_mono(len, n, i, b - 1);
                }
            }
        }
    }
}

/// The mean point of the bucket after bucket `b`.
pub open spec fn mean_of_next<T: Real>(s: Seq<Point<T>>, n: int, b: int) -> Point<T> {
    let len = s.len() as int;
    let end = bucket_edge(len, n, b + 1);
    let next_end = if bucket_edge(len, n, b + 2) > len {
        len
    } else {
        bucket_edge(len, n, b + 2)
    };
    mean_spec(s.subrange(end, next_end))
}

pub proof fn lemma_lttb_indices_shape<T: Real>(s: Seq<Point<T>>, n: int)
    requires
        2 <= n <= s.len(),
    ensures
        lttb_indices(s, n).len() == n,
        lttb_indices(s, n)[0] == 0,
        lttb_indices(s, n)[n - 1] == s.len() - 1,
        forall|i: int, j: int|
            0 <= i < j < n ==> #[trigger] lttb_indices(s, n)[i] < #[trigger] lttb_indices(
                s,
                n,
            )[j],
        forall|k: int| 0 <= k < n ==> 0 <= #[trigger] lttb_indices(s, n)[k] < s.len(),
{
    let len = s.len() as int;
    if n == 2 {
    } else {
        lemma_indices_rec_shape(s, n, n - 2);
        lemma_edge_range(len, n, n - 2);
        assert forall|i: int, j: int| 0 <= i < j < n implies #[trigger] lttb_indices(s, n)[i]
            < #[trigger] lttb_indices(s, n)[j] by {
            if j == n - 1 && i >= 1 {
                lemma_edge_mono(len, n, i, n - 2);
            }
        }
    }
}

fn tri_area<T: Real>(a: Point<T>, b: Point<T>, c: Point<T>) -> (r: T)
    ensures
        r == area_spec(a, b, c),
{
    ((a.x.minus(c.x)).times(b.y.minus(a.y))).minus((a.x.minus(b.x)).times(c.y.minus(a.y))).abs_val()
}

fn mean_range<T: Real>(v: &Vec<Point<T>>, a: usize, b: usize) -> (r: Point<T>)
    requires
        a < b <= v@.len(),
    ensures
        r == mean_spec(v@.subrange(a as int, b as int)),
{
    let mut sx: T = T::zero();
    let mut sy: T = T::zero();
    let mut i: usize = a;
    proof {
        assert(v@.subrange(a as int, a as int) =~= Seq::<Point<T>>::empty());
    }
    while i < b
        invariant
            a <= i <= b <= v@.len(),
            sx == sum_x(v@.subrange(a as int, i as int)),
            sy == sum_y(v@.subrange(a as int, i as int)),
        decreases b - i,
    {
        proof {
            assert(v@.subrange(a as int, i as int + 1).drop_last() =~= v@.subrange(
                a as int,
                i as int,
            ));
            assert(v@.subrange(a as int, i as int + 1).last() == v@[i as int]);
        }
        sx = sx.plus(v[i].x);
        sy = sy.plus(v[i].y);
        i += 1;
    }
    Point { x: sx.div_count(b - a), y: sy.div_count(b - a) }
}

fn pick_in_bucket<T: Real>(
    v: &Vec<Point<T>>,
    start: usize,
    end: usize,
    prev: Point<T>,
    avg: Point<T>,
) -> (r: usize)
    requires
        start < end <= v@.len(),
    ensures
        r as int == start + pick_spec(prev, v@.subrange(start as int, end as int), avg),
        start <= r < end,
{
    let mut best: usize = start;
    let mut best_area: T = tri_area(prev, v[start], avg);
    let mut i: usize = start + 1;
    while i < end
        invariant
            start < i <= end <= v@.len(),
            start <= best < i,
            best as int == start + pick_spec(prev, v@.subrange(start as int, i as int), avg),
            best_area == area_spec(prev, v@[best as int], avg),
        decreases end - i,
    {
        let a = tri_area(prev, v[i], avg);
        proof {
            let sub1 = v@.subrange(start as int, i as int + 1);
            assert(sub1.drop_last() =~= v@.subrange(start as int, i as int));
            assert(sub1.last() == v@[i as int]);
            lemma_pick_in_range(prev, sub1.drop_last(), avg);
            assert(sub1[pick_spec(prev, sub1.drop_last(), avg)] == v@[best as int]);
        }
        if best_area.is_le(a) {
            best = i;
            best_area = a;
        }
        i += 1;
    }
    best
}

/// Reduce `value` to exactly `n` points by Largest-Triangle-Three-Buckets.
///
/// The result keeps the first and last point of the input and one point per
/// bucket in between, chosen by largest triangle area against the previous
/// kept point and the mean of the next bucket; `lttb_spec` states the kept
/// points exactly. A target size under 2 or over the length of the series is
/// rejected.
pub fn lttb_from_array<T: Real>(value: &Vec<Point<T>>, n: usize) -> (res: Result<
    Vec<Point<T>>,
    LttbError,
>)
    ensures
        res is Ok <==> 2 <= n <= value@.len(),
        res matches Ok(out) ==> out@ == lttb_spec(value@, n as int),
        res matches Ok(out) ==> out@.len() == n,
        res matches Ok(out) ==> out@[0] == value@[0] && out@[n - 1] == value@[value@.len() - 1],
        res matches Err(e) ==> e == LttbError::InvalidArgument,
{
    let len = value.len();
    if n < 2 || n > len {
        return Err(LttbError::InvalidArgument);
    }
    let mut indices: Vec<usize> = Vec::new();
    indices.push(0);
    let mut previous: Point<T> = value[0];
    let mut b: usize = 0;
    while b < n - 2
        invariant
            2 <= n <= len,
            len == value@.len(),
            b <= n - 2,
            indices@.len() == b + 1,
            forall|k: int|
                0 <= k < indices@.len() ==> #[trigger] indices@[k] as int == lttb_indices_rec(
                    value@,
                    n as int,
                    b as int,
                )[k],
            forall|k: int| 0 <= k < indices@.len() ==> #[trigger] indices@[k] < len,
            previous == value@[lttb_indices_rec(value@, n as int, b as int).last()],
        decreases n - 2 - b,
    {
        proof {
            lemma_indices_rec_shape(value@, n as int, b as int);
            lemma_edge_range(len as int, n as int, b as int);
            lemma_edge_range(len as int, n as int, b as int + 1);
            lemma_edge_step(len as int, n as int, b as int);
            lemma_edge_step(len as int, n as int, b as int + 1);
        }
        let start = bucket_bound(len, n, b);
        let end = bucket_bound(len, n, b + 1);
        let next_end = bucket_bound(len, n, b + 2);
        let avg = mean_range(value, end, next_end);
        let best = pick_in_bucket(value, start, end, previous, avg);
        indices.push(best);
        previous = value[best];
        proof {
            let rec0 = lttb_indices_rec(value@, n as int, b as int);
            let rec1 = lttb_indices_rec(value@, n as int, b as int + 1);
            assert(rec1 == rec0.push(chosen_index(value@, n as int, b as int, rec0.last())));
            assert(avg == mean_of_next(value@, n as int, b as int));
            assert(best as int == chosen_index(value@, n as int, b as int, rec0.last()));
        }
        b += 1;
    }
    indices.push(len - 1);
    proof {
        lemma_lttb_indices_shape(value@, n as int);
        assert(forall|k: int|
            0 <= k < indices@.len() ==> #[trigger] indices@[k] as int == lttb_indices(
                value@,
                n as int,
            )[k]);
    }
    let mut out: Vec<Point<T>> = Vec::new();
    let mut i: usize = 0;
    while i < indices.len()
        invariant
            indices@.len() == n,
            len == value@.len(),
            2 <= n <= len,
            forall|k: int|
                0 <= k < indices@.len() ==> #[trigger] indices@[k] as int == lttb_indices(
                    value@,
                    n as int,
                )[k],
            forall|k: int| 0 <= k < indices@.len() ==> #[trigger] indices@[k] < len,
            i <= n,
            out@.len() == i,
            forall|k: int|
                0 <= k < i ==> #[trigger] out@[k] == value@[lttb_indices(value@, n as int)[k]],
        decreases indices@.len() - i,
    {
        let j = indices[i];
        out.push(value[j]);
        i += 1;
    }
    proof {
        assert(out@ =~= lttb_spec(value@, n as int));
    }
    Ok(out)
}

/// The rows of `rows` read as points: the first entry of a row is the
/// abscissa, the second the ordinate.
pub open spec fn points_of<T: Real>(rows: Seq<Vec<T>>) -> Seq<Point<T>> {
    Seq::new(rows.len(), |k: int| Point { x: rows[k]@[0], y: rows[k]@[1] })
}

/// The points of `s` written back as two-entry rows.
pub open spec fn rows_of<T: Real>(s: Seq<Point<T>>) -> Seq<Seq<T>> {
    Seq::new(s.len(), |k: int| seq![s[k].x, s[k].y])
}

/// Reduce a series given as a sequence of two-entry rows, the copy-based
/// front end of `lttb_from_array`.
///
/// Every row must hold exactly two coordinates; a shorter row has no pair to
/// read, so such input is left out.
pub fn lttb_from_list<T: Real>(value: &Vec<Vec<T>>, n: usize) -> (res: Result<
    Vec<Vec<T>>,
    LttbError,
>)
    requires
        forall|k: int| 0 <= k < value@.len() ==> (#[trigger] value@[k])@.len() == 2,
    ensures
        res is Ok <==> 2 <= n <= value@.len(),
        res matches Ok(out) ==> out@.map_values(|row: Vec<T>| row@) == rows_of(
            lttb_spec(points_of(value@), n as int),
        ),
        res matches Ok(out) ==> out@.len() == n,
        res matches Err(e) ==> e == LttbError::InvalidArgument,
{
    let len = value.len();
    if n < 2 || n > len {
        return Err(LttbError::InvalidArgument);
    }
    let mut pts: Vec<Point<T>> = Vec::new();
    let mut i: usize = 0;
    while i < len
        invariant
            len == value@.len(),
            i <= len,
            pts@.len() == i,
            forall|k: int| 0 <= k < value@.len() ==> (#[trigger] value@[k])@.len() == 2,
            forall|k: int| 0 <= k < i ==> #[trigger] pts@[k] == points_of(value@)[k],
        decreases len - i,
    {
        let row = &value[i];
        pts.push(Point { x: row[0], y: row[1] });
        i += 1;
    }
    proof {
        assert(pts@ =~= points_of(value@));
    }
    match lttb_from_array(&pts, n) {
        Ok(red) => {
            let mut out: Vec<Vec<T>> = Vec::new();
            let mut j: usize = 0;
            while j < red.len()
                invariant
                    red@ == lttb_spec(points_of(value@), n as int),
                    j <= red@.len(),
                    out@.len() == j,
                    forall|k: int|
                        0 <= k < j ==> (#[trigger] out@[k])@ == rows_of(red@)[k],
                decreases red@.len() - j,
            {
                let mut row: Vec<T> = Vec::new();
                row.push(red[j].x);
                row.push(red[j].y);
                proof {
                    assert(row@ =~= rows_of(red@)[j as int]);
                }
                out.push(row);
                j += 1;
            }
            proof {
                assert(out@.map_values(|row: Vec<T>| row@) =~= rows_of(red@));
            }
            Ok(out)
        },
        Err(_) => {
            proof {
                assert(false);
            }
            Err(LttbError::InvalidArgument)
        },
    }
}

fn bucket_bound(len: usize, n: usize, b: usize) -> (r: usize)
    requires
        3 <= n <= len,
        b <= n,
    ensures
        r as int == if bucket_edge(len as int, n as int, b as int) > len as int {
            len as int
        } else {
            bucket_edge(len as int, n as int, b as int)
        },
        r <= len,
{
    proof {
        assert((b as int) * ((len - 2) as int) <= (u64::MAX as int) * (u64::MAX as int))
            by (nonlinear_arith)
            requires
                0 <= b <= u64::MAX,
                0 <= len - 2 <= u64::MAX,
        ;
    }
    let q: u128 = (b as u128) * ((len - 2) as u128) / ((n - 2) as u128);
    if q >= (len as u128) - 1 {
        len
    } else {
        (q + 1) as usize
    }
}

} // verus!

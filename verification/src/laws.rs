//! Laws of the reduction and of the adaptive search, proved once for all
//! series.

use vstd::prelude::*;
use vstd::arithmetic::div_mod::lemma_div_by_multiple;
use crate::adaptive::{accepts, auto_spec, eff_size};
use crate::reduce::{
    area_spec,
    chosen_index,
    lemma_lttb_indices_shape,
    lemma_pick_in_range,
    lttb_indices,
    lttb_indices_rec,
    lttb_spec,
    pick_spec,
};
use crate::scalar::{Fx, Real};
use crate::series::Point;

verus! {

/// Size and anchors: a reduction to `n` points has exactly `n` points, the
/// first and last of which are the first and last input points; and the kept
/// indices are strictly increasing.
pub proof fn lemma_size_anchors_monotone<T: Real>(s: Seq<Point<T>>, n: int)
    requires
        2 <= n <= s.len(),
    ensures
        lttb_spec(s, n).len() == n,
        lttb_spec(s, n)[0] == s[0],
        lttb_spec(s, n)[n - 1] == s[s.len() - 1],
        forall|i: int, j: int|
            0 <= i < j < n ==> #[trigger] lttb_indices(s, n)[i] < #[trigger] lttb_indices(
                s,
                n,
            )[j],
{
    lemma_lttb_indices_shape(s, n);
}

/// The reduced series keeps exactly the first and the last point when the
/// target size is two.
pub proof fn lemma_minimal<T: Real>(s: Seq<Point<T>>, n: int)
    requires
        n == 2,
        2 <= s.len(),
    ensures
        lttb_indices(s, n) == seq![0int, s.len() - 1],
        lttb_spec(s, n) == seq![s[0], s[s.len() - 1]],
{
    assert(lttb_indices(s, n) =~= seq![0int, s.len() - 1]);
    assert(lttb_spec(s, n) =~= seq![s[0], s[s.len() - 1]]);
}

proof fn lemma_identity_rec<T: Real>(s: Seq<Point<T>>, b: int)
    requires
        3 <= s.len(),
        0 <= b <= s.len() - 2,
    ensures
        lttb_indices_rec(s, s.len() as int, b).len() == b + 1,
        forall|k: int| 0 <= k <= b ==> #[trigger] lttb_indices_rec(s, s.len() as int, b)[k] == k,
    decreases b,
{
    let n = s.len() as int;
    if b == 0 {
    } else {
        lemma_identity_rec(s, b - 1);
        let pre = lttb_indices_rec(s, n, b - 1);
        lemma_div_by_multiple(b - 1, n - 2);
        lemma_div_by_multiple(b, n - 2);
        lemma_div_by_multiple(b + 1, n - 2);
        let cand = s.subrange(b, b + 1);
        assert(cand.len() == 1);
        assert(pick_spec(s[b - 1], cand, crate::reduce::mean_of_next(s, n, b - 1)) == 0);
        assert(chosen_index(s, n, b - 1, b - 1) == b);
    }
}

/// Identity: reducing a series to its own length keeps every point.
pub proof fn lemma_identity<T: Real>(s: Seq<Point<T>>, n: int)
    requires
        n == s.len(),
        2 <= n,
    ensures
        lttb_spec(s, n) == s,
{
    lemma_lttb_indices_shape(s, n);
    if n == 2 {
        assert(lttb_spec(s, n) =~= s);
    } else {
        lemma_identity_rec(s, n - 2);
        assert(lttb_spec(s, n) =~= s);
    }
}

/// The triangle areas of a bucket's candidates, in bucket order.
pub open spec fn areas_of<T: Real>(prev: Point<T>, cand: Seq<Point<T>>, avg: Point<T>) -> Seq<T> {
    Seq::new(cand.len(), |i: int| area_spec(prev, cand[i], avg))
}

/// The ordering is total on the values of `a`.
pub open spec fn le_total_on<T: Real>(a: Seq<T>) -> bool {
    forall|i: int, j: int|
        0 <= i < a.len() && 0 <= j < a.len() ==> #[trigger] a[i].le_spec(a[j]) || #[trigger] a[j].le_spec(
            a[i],
        )
}

/// The ordering is transitive on the values of `a`.
pub open spec fn le_trans_on<T: Real>(a: Seq<T>) -> bool {
    forall|i: int, j: int, k: int|
        0 <= i < a.len() && 0 <= j < a.len() && 0 <= k < a.len() && #[trigger] a[i].le_spec(a[j])
            && #[trigger] a[j].le_spec(a[k]) ==> a[i].le_spec(a[k])
}

/// The kept candidate attains the largest area, and every later candidate's
/// area is strictly below it: the scan keeps the last of the maxima.
pub proof fn lemma_pick_last_max<T: Real>(
    prev: Point<T>,
    cand: Seq<Point<T>>,
    avg: Point<T>,
    ar: Seq<T>,
)
    requires
        cand.len() >= 1,
        ar == areas_of(prev, cand, avg),
        le_total_on(ar),
        le_trans_on(ar),
    ensures
        forall|k: int|
            0 <= k < cand.len() ==> #[trigger] ar[k].le_spec(ar[pick_spec(prev, cand, avg)]),
        forall|k: int|
            pick_spec(prev, cand, avg) < k < cand.len() ==> !(#[trigger] ar[pick_spec(
                prev,
                cand,
                avg,
            )].le_spec(ar[k])),
    decreases cand.len(),
{
    lemma_pick_in_range(prev, cand, avg);
    let p = pick_spec(prev, cand, avg);
    if cand.len() == 1 {
        assert(ar[0].le_spec(ar[0]) || ar[0].le_spec(ar[0]));
    } else {
        let sub = cand.drop_last();
        let arsub = areas_of(prev, sub, avg);
        assert(arsub =~= ar.drop_last());
        assert forall|i: int, j: int|
            0 <= i < arsub.len() && 0 <= j < arsub.len() implies #[trigger] arsub[i].le_spec(
            arsub[j],
        ) || #[trigger] arsub[j].le_spec(arsub[i]) by {
            assert(arsub[i] == ar[i] && arsub[j] == ar[j]);
            assert(ar[i].le_spec(ar[j]) || ar[j].le_spec(ar[i]));
        }
        assert forall|i: int, j: int, k: int|
            0 <= i < arsub.len() && 0 <= j < arsub.len() && 0 <= k < arsub.len()
                && #[trigger] arsub[i].le_spec(arsub[j]) && #[trigger] arsub[j].le_spec(
            arsub[k],
        ) implies arsub[i].le_spec(arsub[k]) by {
            assert(arsub[i] == ar[i] && arsub[j] == ar[j] && arsub[k] == ar[k]);
            assert(ar[i].le_spec(ar[j]) && ar[j].le_spec(ar[k]) ==> ar[i].le_spec(ar[k]));
        }
        lemma_pick_last_max(prev, sub, avg, arsub);
        lemma_pick_in_range(prev, sub, avg);
        let j = pick_spec(prev, sub, avg);
        let last = cand.len() - 1;
        assert(ar[j] == area_spec(prev, cand[j], avg));
        assert(ar[last] == area_spec(prev, cand.last(), avg));
        if area_spec(prev, cand[j], avg).le_spec(area_spec(prev, cand.last(), avg)) {
            assert(p == last);
            assert forall|k: int| 0 <= k < cand.len() implies #[trigger] ar[k].le_spec(
                ar[p],
            ) by {
                if k < last {
                    assert(arsub[k].le_spec(arsub[j]));
                    assert(ar[k].le_spec(ar[j]));
                    assert(ar[j].le_spec(ar[last]));
                } else {
                    assert(ar[last].le_spec(ar[last]) || ar[last].le_spec(ar[last]));
                }
            }
        } else {
            assert(p == j);
            assert forall|k: int| 0 <= k < cand.len() implies #[trigger] ar[k].le_spec(
                ar[p],
            ) by {
                if k < last {
                    assert(arsub[k].le_spec(arsub[j]));
                    assert(ar[k].le_spec(ar[j]));
                } else {
                    assert(ar[j].le_spec(ar[last]) || ar[last].le_spec(ar[j]));
                }
            }
            assert forall|k: int| p < k < cand.len() implies !(#[trigger] ar[p].le_spec(
                ar[k],
            )) by {
                if k < last {
                    assert(!arsub[j].le_spec(arsub[k]));
                    assert(arsub[j] == ar[j] && arsub[k] == ar[k]);
                }
            }
        }
    }
}

/// Tie-break determinism: when a candidate attains the maximal area and a
/// later candidate's area equals it, the kept candidate is never the earlier
/// one — the scan's index is at or after the later of the two.
pub proof fn lemma_tie_later_wins<T: Real>(
    prev: Point<T>,
    cand: Seq<Point<T>>,
    avg: Point<T>,
    ar: Seq<T>,
    i: int,
    j: int,
)
    requires
        ar == areas_of(prev, cand, avg),
        le_total_on(ar),
        le_trans_on(ar),
        0 <= i < j < cand.len(),
        ar[i] == ar[j],
        forall|k: int| 0 <= k < cand.len() ==> #[trigger] ar[k].le_spec(ar[i]),
    ensures
        j <= pick_spec(prev, cand, avg),
{
    lemma_pick_last_max(prev, cand, avg, ar);
    lemma_pick_in_range(prev, cand, avg);
    let p = pick_spec(prev, cand, avg);
    assert(ar.len() == cand.len());
    if p < j {
        assert(ar[p].le_spec(ar[i]));
        assert(!ar[p].le_spec(ar[j]));
        assert(false);
    }
}

/// The exact-integer scalar's ordering is total and transitive on any values,
/// so the tie-break law applies to every bucket of an `Fx` series.
pub proof fn lemma_fx_order(a: Seq<Fx>)
    ensures
        le_total_on(a),
        le_trans_on(a),
{
}

/// Tie-break determinism for the exact-integer scalar, with no order premise:
/// when a candidate of an `Fx` bucket attains the maximal area and a later
/// candidate's area equals it, the kept candidate is at or after the later
/// one.
pub proof fn lemma_fx_tie_later_wins(
    prev: Point<Fx>,
    cand: Seq<Point<Fx>>,
    avg: Point<Fx>,
    i: int,
    j: int,
)
    requires
        0 <= i < j < cand.len(),
        areas_of(prev, cand, avg)[i] == areas_of(prev, cand, avg)[j],
        forall|k: int|
            0 <= k < cand.len() ==> #[trigger] areas_of(prev, cand, avg)[k].le_spec(
                areas_of(prev, cand, avg)[i],
            ),
    ensures
        j <= pick_spec(prev, cand, avg),
{
    lemma_fx_order(areas_of(prev, cand, avg));
    lemma_tie_later_wins(prev, cand, avg, areas_of(prev, cand, avg), i, j);
}

/// Fallback: when no candidate size is accepted, the adaptive search returns
/// the series unchanged.
pub proof fn lemma_auto_fallback<T: Real>(s: Seq<Point<T>>, cands: Seq<int>, tol: T)
    requires
        forall|k: int|
            0 <= k < cands.len() && #[trigger] cands[k] >= 2 ==> !accepts(
                s,
                eff_size(s.len() as int, cands[k]),
                tol,
            ),
    ensures
        auto_spec(s, cands, tol) == s,
    decreases cands.len(),
{
    if cands.len() == 0 {
    } else {
        let rest = cands.skip(1);
        assert forall|k: int| 0 <= k < rest.len() && #[trigger] rest[k] >= 2 implies !accepts(
            s,
            eff_size(s.len() as int, rest[k]),
            tol,
        ) by {
            assert(rest[k] == cands[k + 1]);
        }
        lemma_auto_fallback(s, rest, tol);
    }
}

/// The adaptive search never returns a series longer than the input, whatever
/// the candidate sizes.
pub proof fn lemma_auto_len_bound<T: Real>(s: Seq<Point<T>>, cands: Seq<int>, tol: T)
    requires
        2 <= s.len(),
    ensures
        auto_spec(s, cands, tol).len() <= s.len(),
    decreases cands.len(),
{
    let len = s.len() as int;
    if cands.len() == 0 {
    } else if cands[0] < 2 {
        lemma_auto_len_bound(s, cands.skip(1), tol);
    } else if accepts(s, eff_size(len, cands[0]), tol) {
        lemma_lttb_indices_shape(s, eff_size(len, cands[0]));
    } else {
        lemma_auto_len_bound(s, cands.skip(1), tol);
    }
}

/// Monotone acceptance: with the candidate sizes in increasing order, the
/// adaptive search never returns a series larger than any accepted candidate
/// size — in particular, no larger than the smallest accepted one.
pub proof fn lemma_auto_monotone_acceptance<T: Real>(
    s: Seq<Point<T>>,
    cands: Seq<int>,
    tol: T,
    i: int,
)
    requires
        2 <= s.len(),
        forall|p: int, q: int| 0 <= p < q < cands.len() ==> #[trigger] cands[p] <= #[trigger] cands[q],
        0 <= i < cands.len(),
        2 <= cands[i],
        accepts(s, eff_size(s.len() as int, cands[i]), tol),
    ensures
        auto_spec(s, cands, tol).len() <= eff_size(s.len() as int, cands[i]),
        auto_spec(s, cands, tol).len() <= cands[i],
    decreases cands.len(),
{
    let len = s.len() as int;
    let rest = cands.skip(1);
    assert forall|p: int, q: int| 0 <= p < q < rest.len() implies #[trigger] rest[p]
        <= #[trigger] rest[q] by {
        assert(rest[p] == cands[p + 1] && rest[q] == cands[q + 1]);
    }
    if cands[0] < 2 {
        assert(i >= 1);
        assert(rest[i - 1] == cands[i]);
        lemma_auto_monotone_acceptance(s, rest, tol, i - 1);
    } else if accepts(s, eff_size(len, cands[0]), tol) {
        lemma_lttb_indices_shape(s, eff_size(len, cands[0]));
        assert(auto_spec(s, cands, tol).len() == eff_size(len, cands[0]));
        assert(cands[0] <= cands[i]);
    } else {
        assert(i >= 1);
        assert(rest[i - 1] == cands[i]);
        lemma_auto_monotone_acceptance(s, rest, tol, i - 1);
    }
}

} // verus!

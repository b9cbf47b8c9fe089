//! The adaptive size search: the smallest candidate size whose reduction
//! keeps the trapezoidal integral within a tolerance of the original's.

use vstd::prelude::*;
use crate::integral::{trapz, trapz_spec};
use crate::reduce::{lttb_from_array, lttb_spec};
use crate::scalar::Real;
use crate::series::{LttbError, Point};

verus! {

/// A candidate size, clamped from above to the length of the series.
pub open spec fn eff_size(len: int, c: int) -> int {
    if c > len {
        len
    } else {
        c
    }
}

/// Whether the reduction of `s` to `n` points is accepted: its relative loss
/// `|(integral(reduced) - integral(s)) / integral(s)|` compares strictly below
/// `tol`.
///
/// When the integral of `s` is zero the relative loss is undefined; the loss
/// is then taken as zero when the reduced integral is zero too, and the
/// candidate is rejected otherwise.
pub open spec fn accepts<T: Real>(s: Seq<Point<T>>, n: int, tol: T) -> bool {
    let i0 = trapz_spec(s);
    let isam = trapz_spec(lttb_spec(s, n));
    if i0.eq_spec(T::zero_spec()) {
        isam.eq_spec(T::zero_spec()) && T::zero_spec().lt_spec(tol)
    } else {
        isam.minus_spec(i0).over_spec(i0).abs_spec().lt_spec(tol)
    }
}

/// What the adaptive search returns: the reduction at the first candidate
/// that is accepted, candidates under 2 being skipped and candidates over the
/// length clamped to it; the series itself when no candidate is accepted.
pub open spec fn auto_spec<T: Real>(s: Seq<Point<T>>, cands: Seq<int>, tol: T) -> Seq<Point<T>>
    decreases cands.len(),
{
    if cands.len() == 0 {
        s
    } else if cands[0] < 2 {
        auto_spec(s, cands.skip(1), tol)
    } else if accepts(s, eff_size(s.len() as int, cands[0]), tol) {
        lttb_spec(s, eff_size(s.len() as int, cands[0]))
    } else {
        auto_spec(s, cands.skip(1), tol)
    }
}

fn copy_series<T: Real>(v: &Vec<Point<T>>) -> (r: Vec<Point<T>>)
    ensures
        r@ == v@,
{
    let mut out: Vec<Point<T>> = Vec::new();
    let mut i: usize = 0;
    while i < v.len()
        invariant
            i <= v@.len(),
            out@ =~= v@.subrange(0, i as int),
        decreases v@.len() - i,
    {
        out.push(v[i]);
        i += 1;
    }
    proof {
        assert(v@.subrange(0, v@.len() as int) =~= v@);
    }
    out
}

/// Reduce `value` to the smallest of the candidate sizes whose trapezoidal
/// integral deviates from the original's by less than `tolerance`, relative
/// to the original; return the series unchanged when no candidate is
/// accepted.
///
/// The candidate sizes are tried in the order given; a caller that wants the
/// smallest accepted size passes them in increasing order. Sizes under 2 are
/// skipped and sizes over the length of the series are clamped to it. The
/// construction of a candidate ladder (geometrically spaced up to the length)
/// is left to the caller, whose scalar type carries the arithmetic for it.
pub fn auto_lttb<T: Real>(
    value: &Vec<Point<T>>,
    candidates: &Vec<usize>,
    tolerance: T,
) -> (res: Result<Vec<Point<T>>, LttbError>)
    ensures
        res is Ok <==> value@.len() >= 2,
        res matches Ok(out) ==> out@ == auto_spec(
            value@,
            candidates@.map_values(|c: usize| c as int),
            tolerance,
        ),
        res matches Err(e) ==> e == LttbError::InvalidArgument,
{
    let ghost cmap = candidates@.map_values(|c: usize| c as int);
    let len = value.len();
    if len < 2 {
        return Err(LttbError::InvalidArgument);
    }
    let integral0 = trapz(value);
    let zero = T::zero();
    let mut i: usize = 0;
    proof {
        assert(cmap.skip(0) =~= cmap);
    }
    while i < candidates.len()
        invariant
            cmap == candidates@.map_values(|c: usize| c as int),
            len == value@.len(),
            2 <= len,
            i <= candidates@.len(),
            integral0 == trapz_spec(value@),
            zero == T::zero_spec(),
            auto_spec(value@, cmap, tolerance) == auto_spec(value@, cmap.skip(i as int), tolerance),
        decreases candidates@.len() - i,
    {
        let c = candidates[i];
        proof {
            assert(cmap.skip(i as int).len() > 0);
            assert(cmap.skip(i as int)[0] == c as int);
            assert(cmap.skip(i as int).skip(1) =~= cmap.skip(i as int + 1));
        }
        if c >= 2 {
            let n = if c > len {
                len
            } else {
                c
            };
            proof {
                assert(n as int == eff_size(len as int, c as int));
            }
            match lttb_from_array(value, n) {
                Ok(sampled) => {
                    let isam = trapz(&sampled);
                    let accept: bool = if integral0.is_eq(zero) {
                        isam.is_eq(zero) && zero.is_lt(tolerance)
                    } else {
                        (isam.minus(integral0)).over(integral0).abs_val().is_lt(tolerance)
                    };
                    if accept {
                        proof {
                            assert(accepts(value@, n as int, tolerance));
                        }
                        return Ok(sampled);
                    }
                    proof {
                        assert(!accepts(value@, n as int, tolerance));
                    }
                },
                Err(_) => {
                    proof {
                        assert(false);
                    }
                    return Err(LttbError::InvalidArgument);
                },
            }
        }
        i += 1;
    }
    proof {
        assert(cmap.skip(i as int).len() == 0);
        assert(auto_spec(value@, cmap.skip(i as int), tolerance) == value@);
    }
    let out = copy_series(value);
    Ok(out)
}

} // verus!

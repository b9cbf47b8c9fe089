//! The trapezoidal integral of a series, used as the fidelity metric of the
//! adaptive size search.

use vstd::prelude::*;
use crate::scalar::Real;
use crate::series::Point;

verus! {

/// One trapezoid: `(x1 - x0) * 1/2 * (y0 + y1)`.
pub open spec fn trap_term<T: Real>(p: Point<T>, q: Point<T>) -> T {
    (q.x.minus_spec(p.x)).halve_spec().times_spec(p.y.plus_spec(q.y))
}

/// The definite integral of the piecewise-linear curve through `s`, by the
/// trapezoid rule, summed left to right; zero when the series has fewer than
/// two points.
pub open spec fn trapz_spec<T: Real>(s: Seq<Point<T>>) -> T
    decreases s.len(),
{
    if s.len() < 2 {
        T::zero_spec()
    } else {
        trapz_spec(s.drop_last()).plus_spec(trap_term(s[s.len() - 2], s[s.len() - 1]))
    }
}

/// The trapezoidal integral of `value`: exactly `trapz_spec` of the series.
pub fn trapz<T: Real>(value: &Vec<Point<T>>) -> (r: T)
    ensures
        r == trapz_spec(value@),
{
    let len = value.len();
    if len < 2 {
        return T::zero();
    }
    let mut acc: T = T::zero();
    let mut i: usize = 0;
    proof {
        assert(value@.subrange(0, 1).len() == 1);
    }
    while i < len - 1
        invariant
            2 <= len,
            len == value@.len(),
            i <= len - 1,
            acc == trapz_spec(value@.subrange(0, i as int + 1)),
        decreases len - 1 - i,
    {
        let t = (value[i + 1].x.minus(value[i].x)).halve().times(value[i].y.plus(value[i + 1].y));
        proof {
            let sub = value@.subrange(0, i as int + 2);
            assert(sub.drop_last() =~= value@.subrange(0, i as int + 1));
            assert(sub[sub.len() - 2] == value@[i as int]);
            assert(sub[sub.len() - 1] == value@[i as int + 1]);
        }
        acc = acc.plus(t);
        i += 1;
    }
    proof {
        assert(value@.subrange(0, len as int) =~= value@);
    }
    acc
}

} // verus!

//! The scalar numbers a series is made of.
//!
//! The reduction algorithm is generic over a real-number-like scalar. Every
//! arithmetic operation an implementor performs is pinned by a spec function
//! of the same implementor, so the library's contracts can state exactly which
//! value each operation produced, without fixing one number representation.
//!
//! [`Fx`] is the library's own implementor: a saturating exact-integer scalar
//! in sign-and-magnitude form, verified against its spec functions.

use vstd::prelude::*;

verus! {

/// A real-number-like scalar: the element type of a series.
///
/// Each executable operation returns exactly the value of its spec-level
/// counterpart, so verified callers can reason about the arithmetic they
/// performed. The operations must be total: an implementor that cannot
/// represent a result exactly must still return some value (saturate, round),
/// never panic.
pub trait Real: Sized + Copy {
    /// The value `plus` returns.
    spec fn plus_spec(self, o: Self) -> Self;

    /// The value `minus` returns.
    spec fn minus_spec(self, o: Self) -> Self;

    /// The value `times` returns.
    spec fn times_spec(self, o: Self) -> Self;

    /// The value `abs_val` returns.
    spec fn abs_spec(self) -> Self;

    /// The value `halve` returns.
    spec fn halve_spec(self) -> Self;

    /// The value `div_count` returns for a count `k`.
    spec fn div_count_spec(self, k: usize) -> Self;

    /// The value `over` returns.
    spec fn over_spec(self, o: Self) -> Self;

    /// The ordering `is_le` decides.
    spec fn le_spec(self, o: Self) -> bool;

    /// The ordering `is_lt` decides.
    spec fn lt_spec(self, o: Self) -> bool;

    /// The equality `is_eq` decides.
    spec fn eq_spec(self, o: Self) -> bool;

    /// The value `zero` returns.
    spec fn zero_spec() -> Self;

    /// Addition.
    fn plus(self, o: Self) -> (r: Self)
        ensures
            r == self.plus_spec(o),
    ;

    /// Subtraction.
    fn minus(self, o: Self) -> (r: Self)
        ensures
            r == self.minus_spec(o),
    ;

    /// Multiplication.
    fn times(self, o: Self) -> (r: Self)
        ensures
            r == self.times_spec(o),
    ;

    /// Absolute value.
    fn abs_val(self) -> (r: Self)
        ensures
            r == self.abs_spec(),
    ;

    /// Half of the value, as in multiplying by one half.
    fn halve(self) -> (r: Self)
        ensures
            r == self.halve_spec(),
    ;

    /// Division by a positive element count, for arithmetic means.
    fn div_count(self, k: usize) -> (r: Self)
        requires
            1 <= k,
        ensures
            r == self.div_count_spec(k),
    ;

    /// Division by another scalar, which must not equal zero.
    fn over(self, o: Self) -> (r: Self)
        requires
            !o.eq_spec(Self::zero_spec()),
        ensures
            r == self.over_spec(o),
    ;

    /// Less-than-or-equal comparison.
    fn is_le(self, o: Self) -> (r: bool)
        ensures
            r == self.le_spec(o),
    ;

    /// Strict less-than comparison.
    fn is_lt(self, o: Self) -> (r: bool)
        ensures
            r == self.lt_spec(o),
    ;

    /// Equality of numeric values.
    fn is_eq(self, o: Self) -> (r: bool)
        ensures
            r == self.eq_spec(o),
    ;

    /// The additive identity.
    fn zero() -> (r: Self)
        ensures
            r == Self::zero_spec(),
    ;
}

/// An exact-integer scalar in sign-and-magnitude form.
///
/// The value is `mag` when `neg` is false and `-mag` when `neg` is true.
/// Additions and multiplications saturate at the largest magnitude; divisions
/// truncate toward zero. All constructors keep zero canonical (`neg` false).
#[derive(Clone, Copy, Debug, PartialEq, Eq, Structural)]
pub struct Fx {
    /// Whether the value is negative.
    pub neg: bool,
    /// The magnitude of the value.
    pub mag: u64,
}

/// The integer a [`Fx`] stands for.
pub open spec fn fx_val(a: Fx) -> int {
    if a.neg {
        -(a.mag as int)
    } else {
        a.mag as int
    }
}

/// A [`Fx`] with canonical zero: a zero magnitude is never negative.
pub open spec fn fx_new_spec(neg: bool, mag: u64) -> Fx {
    Fx { neg: neg && mag != 0, mag }
}

fn fx_new(neg: bool, mag: u64) -> (r: Fx)
    ensures
        r == fx_new_spec(neg, mag),
{
    Fx { neg: neg && mag != 0, mag }
}

/// Saturating addition of magnitudes.
pub open spec fn sat_add_spec(a: u64, b: u64) -> u64 {
    if a + b > u64::MAX {
        u64::MAX
    } else {
        (a + b) as u64
    }
}

fn sat_add(a: u64, b: u64) -> (r: u64)
    ensures
        r == sat_add_spec(a, b),
{
    if a > u64::MAX - b {
        u64::MAX
    } else {
        a + b
    }
}

/// Saturating multiplication of magnitudes.
pub open spec fn sat_mul_spec(a: u64, b: u64) -> u64 {
    if a * b > u64::MAX {
        u64::MAX
    } else {
        (a * b) as u64
    }
}

fn sat_mul(a: u64, b: u64) -> (r: u64)
    ensures
        r == sat_mul_spec(a, b),
{
    proof {
        assert((a as int) * (b as int) <= (u64::MAX as int) * (u64::MAX as int)) by (nonlinear_arith)
            requires
                a <= u64::MAX,
                b <= u64::MAX,
        ;
    }
    let p: u128 = (a as u128) * (b as u128);
    if p > u64::MAX as u128 {
        u64::MAX
    } else {
        p as u64
    }
}

/// Addition of `Fx` values is exact while the result's magnitude fits.
pub proof fn lemma_fx_plus_exact(a: Fx, b: Fx)
    requires
        -(u64::MAX as int) <= fx_val(a) + fx_val(b) <= u64::MAX as int,
    ensures
        fx_val(a.plus_spec(b)) == fx_val(a) + fx_val(b),
{
}

/// Subtraction of `Fx` values is exact while the result's magnitude fits.
pub proof fn lemma_fx_minus_exact(a: Fx, b: Fx)
    requires
        -(u64::MAX as int) <= fx_val(a) - fx_val(b) <= u64::MAX as int,
    ensures
        fx_val(a.minus_spec(b)) == fx_val(a) - fx_val(b),
{
    assert(fx_val(fx_new_spec(!b.neg, b.mag)) == -fx_val(b));
    lemma_fx_plus_exact(a, fx_new_spec(!b.neg, b.mag));
}

/// Multiplication of `Fx` values is exact while the result's magnitude fits.
pub proof fn lemma_fx_times_exact(a: Fx, b: Fx)
    requires
        -(u64::MAX as int) <= fx_val(a) * fx_val(b) <= u64::MAX as int,
    ensures
        fx_val(a.times_spec(b)) == fx_val(a) * fx_val(b),
{
    let ma = a.mag as int;
    let mb = b.mag as int;
    assert((-ma) * (-mb) == ma * mb) by (nonlinear_arith);
    assert((-ma) * mb == -(ma * mb)) by (nonlinear_arith);
    assert(ma * (-mb) == -(ma * mb)) by (nonlinear_arith);
}

impl Real for Fx {
    open spec fn plus_spec(self, o: Fx) -> Fx {
        if self.neg == o.neg {
            fx_new_spec(self.neg, sat_add_spec(self.mag, o.mag))
        } else if self.mag >= o.mag {
            fx_new_spec(self.neg, (self.mag - o.mag) as u64)
        } else {
            fx_new_spec(o.neg, (o.mag - self.mag) as u64)
        }
    }

    open spec fn minus_spec(self, o: Fx) -> Fx {
        self.plus_spec(fx_new_spec(!o.neg, o.mag))
    }

    open spec fn times_spec(self, o: Fx) -> Fx {
        fx_new_spec(self.neg != o.neg, sat_mul_spec(self.mag, o.mag))
    }

    open spec fn abs_spec(self) -> Fx {
        Fx { neg: false, mag: self.mag }
    }

    open spec fn halve_spec(self) -> Fx {
        fx_new_spec(self.neg, (self.mag as int / 2) as u64)
    }

    open spec fn div_count_spec(self, k: usize) -> Fx {
        fx_new_spec(self.neg, (self.mag as int / k as int) as u64)
    }

    open spec fn over_spec(self, o: Fx) -> Fx {
        fx_new_spec(self.neg != o.neg, (self.mag as int / o.mag as int) as u64)
    }

    open spec fn le_spec(self, o: Fx) -> bool {
        fx_val(self) <= fx_val(o)
    }

    open spec fn lt_spec(self, o: Fx) -> bool {
        fx_val(self) < fx_val(o)
    }

    open spec fn eq_spec(self, o: Fx) -> bool {
        fx_val(self) == fx_val(o)
    }

    open spec fn zero_spec() -> Fx {
        Fx { neg: false, mag: 0 }
    }

    fn plus(self, o: Fx) -> (r: Fx) {
        if self.neg == o.neg {
            fx_new(self.neg, sat_add(self.mag, o.mag))
        } else if self.mag >= o.mag {
            fx_new(self.neg, self.mag - o.mag)
        } else {
            fx_new(o.neg, o.mag - self.mag)
        }
    }

    fn minus(self, o: Fx) -> (r: Fx) {
        self.plus(fx_new(!o.neg, o.mag))
    }

    fn times(self, o: Fx) -> (r: Fx) {
        fx_new(self.neg != o.neg, sat_mul(self.mag, o.mag))
    }

    fn abs_val(self) -> (r: Fx) {
        Fx { neg: false, mag: self.mag }
    }

    fn halve(self) -> (r: Fx) {
        fx_new(self.neg, self.mag / 2)
    }

    fn div_count(self, k: usize) -> (r: Fx) {
        fx_new(self.neg, self.mag / (k as u64))
    }

    fn over(self, o: Fx) -> (r: Fx) {
        fx_new(self.neg != o.neg, self.mag / o.mag)
    }

    fn is_le(self, o: Fx) -> (r: bool) {
        if self.neg && o.neg {
            o.mag <= self.mag
        } else if self.neg {
            true
        } else if o.neg {
            self.mag == 0 && o.mag == 0
        } else {
            self.mag <= o.mag
        }
    }

    fn is_lt(self, o: Fx) -> (r: bool) {
        if self.neg && o.neg {
            o.mag < self.mag
        } else if self.neg {
            self.mag != 0 || o.mag != 0
        } else if o.neg {
            false
        } else {
            self.mag < o.mag
        }
    }

    fn is_eq(self, o: Fx) -> (r: bool) {
        (self.neg == o.neg && self.mag == o.mag) || (self.mag == 0 && o.mag == 0)
    }

    fn zero() -> (r: Fx) {
        Fx { neg: false, mag: 0 }
    }
}

} // verus!

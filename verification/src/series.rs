//! Points, series, and the error a malformed request raises.

use vstd::prelude::*;
use crate::scalar::Real;

verus! {

/// One sample of the series: a pair of coordinates.
///
/// Within a series the `x` coordinates are expected to be non-decreasing
/// (time-ordered); the algorithms read the series and never mutate it.
#[derive(Clone, Copy, Debug)]
pub struct Point<T> {
    /// The abscissa.
    pub x: T,
    /// The ordinate.
    pub y: T,
}

/// The single error kind: the request was malformed.
///
/// It covers a target size out of bounds and an input series that is too
/// short. The computation is pure, so a given invalid input always fails the
/// same way.
#[derive(Clone, Copy, Debug, PartialEq, Eq, Structural)]
pub enum LttbError {
    /// The target size or the series length is out of bounds.
    InvalidArgument,
}

/// The points of `s` at the indices `idx`, in order.
pub open spec fn gather<T: Real>(s: Seq<Point<T>>, idx: Seq<int>) -> Seq<Point<T>> {
    Seq::new(idx.len(), |k: int| s[idx[k]])
}

} // verus!

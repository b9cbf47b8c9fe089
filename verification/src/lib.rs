//! Largest-Triangle-Three-Buckets (LTTB) downsampling.
//!
//! The library reduces an ordered two-dimensional series to a small number of
//! representative points while preserving the areal shape of the curve, and
//! offers an adaptive search for the smallest output size whose trapezoidal
//! integral stays within a caller-given tolerance of the original's.
//!
//! All arithmetic is carried out in the scalar type of the series, through the
//! [`scalar::Real`] trait; [`scalar::Fx`] is a saturating exact-integer scalar
//! whose operations are verified.

pub mod adaptive;
pub mod integral;
pub mod laws;
pub mod reduce;
pub mod scalar;
pub mod series;

//! Spline interpolation over an ordered set of control points.
//!
//! A [`Spline`] owns a sequence of [`Key`]s sorted ascending by coordinate.
//! Each key carries the [`Interpolation`] mode of the segment that starts at
//! it. Sampling locates the enclosing segment by binary search and blends the
//! two (or, for Catmull-Rom, four) surrounding key values through the
//! [`Interpolate`] capability of the value type.
//!
//! The coordinate and value types are independent generic parameters, bound
//! by the [`Coordinate`] and [`Interpolate`] capability traits, so scalar
//! coordinates can carry scalar or vector payloads. [`Milli`], a saturating
//! fixed-point number, is the verified conformance provided for both roles;
//! [`codec`] persists fixed-point splines structurally.

pub mod codec;
pub mod fixed;
pub mod interpolate;
pub mod interpolation;
pub mod iter;
pub mod key;
pub mod laws;
pub mod spline;

pub use crate::fixed::Milli;
pub use crate::interpolate::Coordinate;
pub use crate::interpolate::Interpolate;
pub use crate::interpolation::Interpolation;
pub use crate::iter::Iter;
pub use crate::key::Key;
pub use crate::spline::Spline;

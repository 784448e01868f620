//! Control points.

use crate::interpolation::Interpolation;
use vstd::prelude::*;

verus! {

/// A control point: a sampling coordinate, the value the curve passes through
/// there, and the interpolation mode of the segment that starts at this key.
/// The mode of a spline's last key is never applied, since no segment starts
/// there.
#[derive(Clone, Copy, Debug, PartialEq)]
pub struct Key<T, V> {
    /// The sampling coordinate; keys are ordered by it alone.
    pub coordinate: T,
    /// The value carried at this coordinate.
    pub value: V,
    /// The mode of the segment between this key and the next one.
    pub mode: Interpolation<V>,
}

impl<T, V> Key<T, V> {
    /// Builds a control point.
    pub fn new(coordinate: T, value: V, mode: Interpolation<V>) -> (r: Self)
        ensures
            r == (Key { coordinate, value, mode }),
    {
        Key { coordinate, value, mode }
    }
}

} // verus!

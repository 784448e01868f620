//! The closed set of interpolation modes a segment can use.

use vstd::prelude::*;

verus! {

/// How the segment starting at a key blends between that key's value and the
/// next key's value. The Bezier variants carry their auxiliary control values
/// alongside the key instead of as separate keys.
#[derive(Clone, Copy, Debug, PartialEq)]
pub enum Interpolation<V> {
    /// Hold the lower key's value until the next key.
    Step,
    /// Straight blend between the two key values.
    Linear,
    /// Straight blend remapped through a cosine-shaped ease curve.
    Cosine,
    /// Cubic Hermite blend whose tangents come from the key before the lower
    /// key and the key after the upper key; the first and last segment, which
    /// lack such a neighbor, fall back to the linear blend.
    CatmullRom,
    /// Quadratic Bezier blend through one auxiliary control value.
    Bezier(V),
    /// Cubic Bezier blend through two auxiliary control values.
    StrokeBezier(V, V),
}

impl<V> Default for Interpolation<V> {
    /// The default mode is the linear blend.
    fn default() -> (r: Self)
        ensures
            r == Interpolation::<V>::Linear,
    {
        Interpolation::Linear
    }
}

} // verus!

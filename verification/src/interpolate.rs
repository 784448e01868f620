//! The numeric capability contracts of the sampling engine.
//!
//! [`Coordinate`] is what a sampling parameter type must provide: a total
//! order and the normalization of a coordinate into the blend-ratio domain of
//! a segment. [`Interpolate`] is what a value type must provide: the blending
//! formulas, each with a specification twin and with the boundary law that
//! blending at ratio zero returns the lower value exactly. The boundary laws
//! are what make sampling exactly at a key's coordinate return that key's
//! value for every mode.

use vstd::prelude::*;

verus! {

/// A sampling coordinate: totally ordered, with zero and one of the
/// blend-ratio domain, and a normalization of a coordinate into a segment.
pub trait Coordinate: Sized + Copy {
    /// The order that keeps a spline's keys sorted.
    spec fn le_spec(self, other: Self) -> bool;

    /// The blend ratio `0`.
    spec fn zero_spec() -> Self;

    /// The blend ratio `1`.
    spec fn one_spec() -> Self;

    /// What [`Coordinate::normalize`] returns.
    spec fn normalize_spec(x: Self, lo: Self, hi: Self) -> Self;

    /// The order is reflexive.
    proof fn lemma_le_refl(x: Self)
        ensures
            x.le_spec(x),
    ;

    /// The order is transitive.
    proof fn lemma_le_trans(x: Self, y: Self, z: Self)
        requires
            x.le_spec(y),
            y.le_spec(z),
        ensures
            x.le_spec(z),
    ;

    /// The order is total.
    proof fn lemma_le_total(x: Self, y: Self)
        ensures
            x.le_spec(y) || y.le_spec(x),
    ;

    /// A coordinate at the lower bound of its segment normalizes to ratio
    /// zero, also when the segment has zero length.
    proof fn lemma_normalize_at_lower(x: Self, lo: Self, hi: Self)
        requires
            lo.le_spec(x),
            x.le_spec(hi),
            x.le_spec(lo),
        ensures
            Self::normalize_spec(x, lo, hi) == Self::zero_spec(),
    ;

    /// Decides the order.
    fn le(self, other: Self) -> (r: bool)
        ensures
            r == self.le_spec(other),
    ;

    /// Maps `x` within `[lo, hi]` to a blend ratio in `[0, 1]`; a zero-length
    /// segment maps to ratio zero.
    fn normalize(x: Self, lo: Self, hi: Self) -> (t: Self)
        requires
            lo.le_spec(x),
            x.le_spec(hi),
        ensures
            t == Self::normalize_spec(x, lo, hi),
            Self::zero_spec().le_spec(t),
            t.le_spec(Self::one_spec()),
    ;
}

/// A value that can be blended between keys. Every formula takes a blend
/// ratio `t` in `[0, 1]` of the coordinate type and is pinned by its
/// specification twin; at ratio zero each returns its lower value exactly.
pub trait Interpolate<T: Coordinate>: Sized + Copy {
    /// What [`Interpolate::lerp`] returns.
    spec fn lerp_spec(a: Self, b: Self, t: T) -> Self;

    /// What [`Interpolate::cosine`] returns.
    spec fn cosine_spec(a: Self, b: Self, t: T) -> Self;

    /// What [`Interpolate::cubic_hermite`] returns.
    spec fn cubic_hermite_spec(p0: (Self, T), p1: (Self, T), p2: (Self, T), p3: (Self, T), t: T) -> Self;

    /// What [`Interpolate::quadratic_bezier`] returns.
    spec fn quadratic_bezier_spec(a: Self, u: Self, b: Self, t: T) -> Self;

    /// What [`Interpolate::cubic_bezier`] returns.
    spec fn cubic_bezier_spec(a: Self, u: Self, w: Self, b: Self, t: T) -> Self;

    /// A linear blend at ratio zero is the lower value.
    proof fn lemma_lerp_at_zero(a: Self, b: Self)
        ensures
            Self::lerp_spec(a, b, T::zero_spec()) == a,
    ;

    /// A cosine-eased blend at ratio zero is the lower value.
    proof fn lemma_cosine_at_zero(a: Self, b: Self)
        ensures
            Self::cosine_spec(a, b, T::zero_spec()) == a,
    ;

    /// A cubic Hermite blend at ratio zero is its second control value.
    proof fn lemma_cubic_hermite_at_zero(p0: (Self, T), p1: (Self, T), p2: (Self, T), p3: (Self, T))
        ensures
            Self::cubic_hermite_spec(p0, p1, p2, p3, T::zero_spec()) == p1.0,
    ;

    /// A quadratic Bezier blend at ratio zero is the lower value.
    proof fn lemma_quadratic_bezier_at_zero(a: Self, u: Self, b: Self)
        ensures
            Self::quadratic_bezier_spec(a, u, b, T::zero_spec()) == a,
    ;

    /// A cubic Bezier blend at ratio zero is the lower value.
    proof fn lemma_cubic_bezier_at_zero(a: Self, u: Self, w: Self, b: Self)
        ensures
            Self::cubic_bezier_spec(a, u, w, b, T::zero_spec()) == a,
    ;

    /// Straight blend from `a` to `b`.
    fn lerp(a: Self, b: Self, t: T) -> (r: Self)
        requires
            T::zero_spec().le_spec(t),
            t.le_spec(T::one_spec()),
        ensures
            r == Self::lerp_spec(a, b, t),
    ;

    /// Blend from `a` to `b` remapped through a cosine-shaped ease curve.
    fn cosine(a: Self, b: Self, t: T) -> (r: Self)
        requires
            T::zero_spec().le_spec(t),
            t.le_spec(T::one_spec()),
        ensures
            r == Self::cosine_spec(a, b, t),
    ;

    /// Cubic Hermite blend between `p1` and `p2`, with tangents derived from
    /// the outer points `p0` and `p3`; each point pairs a value with its
    /// coordinate.
    fn cubic_hermite(p0: (Self, T), p1: (Self, T), p2: (Self, T), p3: (Self, T), t: T) -> (r: Self)
        requires
            T::zero_spec().le_spec(t),
            t.le_spec(T::one_spec()),
        ensures
            r == Self::cubic_hermite_spec(p0, p1, p2, p3, t),
    ;

    /// Quadratic Bezier blend from `a` to `b` through the control value `u`.
    fn quadratic_bezier(a: Self, u: Self, b: Self, t: T) -> (r: Self)
        requires
            T::zero_spec().le_spec(t),
            t.le_spec(T::one_spec()),
        ensures
            r == Self::quadratic_bezier_spec(a, u, b, t),
    ;

    /// Cubic Bezier blend from `a` to `b` through the control values `u` and
    /// `w`.
    fn cubic_bezier(a: Self, u: Self, w: Self, b: Self, t: T) -> (r: Self)
        requires
            T::zero_spec().le_spec(t),
            t.le_spec(T::one_spec()),
        ensures
            r == Self::cubic_bezier_spec(a, u, w, b, t),
    ;
}

} // verus!

//! Guarantees of the sampling engine that cut across several operations,
//! proved once over the model.

use crate::interpolate::Coordinate;
use crate::interpolate::Interpolate;
use crate::interpolation::Interpolation;
use crate::key::Key;
use crate::spline::clamped_spec;
use crate::spline::lemma_seg_of_props;
use crate::spline::lemma_seg_of_same_coordinates;
use crate::spline::sample_spec;
use crate::spline::seg_of;
use crate::spline::sorted;
use vstd::prelude::*;

verus! {

/// Sampling exactly at a key's coordinate returns that key's value, whatever
/// mode the segment uses. At a coordinate shared by several keys the last of
/// them wins, so the key must be the last one at its coordinate.
pub proof fn lemma_sample_at_key<T: Coordinate, V: Interpolate<T>>(s: Seq<Key<T, V>>, i: int)
    requires
        sorted(s),
        s.len() >= 2,
        0 <= i < s.len(),
        i < s.len() - 1 ==> !s[i + 1].coordinate.le_spec(s[i].coordinate),
    ensures
        sample_spec(s, s[i].coordinate) == Some(s[i].value),
{
    let x = s[i].coordinate;
    T::lemma_le_refl(x);
    assert(s[0].coordinate.le_spec(x));
    assert(s.last() == s[s.len() - 1]);
    assert(x.le_spec(s.last().coordinate));
    if s.last().coordinate.le_spec(x) {
        if i < s.len() - 1 {
            assert(s[i + 1].coordinate.le_spec(s[s.len() - 1].coordinate));
            T::lemma_le_trans(s[i + 1].coordinate, s[s.len() - 1].coordinate, x);
            assert(false);
        }
    } else {
        lemma_seg_of_props(s, x);
        let j = seg_of(s, x);
        if j > i {
            assert(s[i + 1].coordinate.le_spec(s[j].coordinate));
            T::lemma_le_trans(s[i + 1].coordinate, s[j].coordinate, x);
            assert(false);
        }
        assert(j == i);
        assert(s[i].coordinate.le_spec(s[i + 1].coordinate));
        T::lemma_normalize_at_lower(x, s[i].coordinate, s[i + 1].coordinate);
        let t = T::normalize_spec(x, s[i].coordinate, s[i + 1].coordinate);
        assert(t == T::zero_spec());
        match s[i].mode {
            Interpolation::Step => {},
            Interpolation::Linear => {
                V::lemma_lerp_at_zero(s[i].value, s[i + 1].value);
            },
            Interpolation::Cosine => {
                V::lemma_cosine_at_zero(s[i].value, s[i + 1].value);
            },
            Interpolation::CatmullRom => {
                if i == 0 || i + 2 >= s.len() {
                    V::lemma_lerp_at_zero(s[i].value, s[i + 1].value);
                } else {
                    V::lemma_cubic_hermite_at_zero(
                        (s[i - 1].value, s[i - 1].coordinate),
                        (s[i].value, s[i].coordinate),
                        (s[i + 1].value, s[i + 1].coordinate),
                        (s[i + 2].value, s[i + 2].coordinate),
                    );
                }
            },
            Interpolation::Bezier(u) => {
                V::lemma_quadratic_bezier_at_zero(s[i].value, u, s[i + 1].value);
            },
            Interpolation::StrokeBezier(u, w) => {
                V::lemma_cubic_bezier_at_zero(s[i].value, u, w, s[i + 1].value);
            },
        }
    }
}

/// A linear segment passes through both of its keys: sampling at the start
/// key's coordinate returns its value and sampling at the next key's
/// coordinate returns that key's value, each key being the last one at its
/// coordinate.
pub proof fn lemma_linear_segment_endpoints<T: Coordinate, V: Interpolate<T>>(s: Seq<Key<T, V>>, i: int)
    requires
        sorted(s),
        s.len() >= 2,
        0 <= i < s.len() - 1,
        s[i].mode == Interpolation::<V>::Linear,
        !s[i + 1].coordinate.le_spec(s[i].coordinate),
        i + 1 < s.len() - 1 ==> !s[i + 2].coordinate.le_spec(s[i + 1].coordinate),
    ensures
        sample_spec(s, s[i].coordinate) == Some(s[i].value),
        sample_spec(s, s[i + 1].coordinate) == Some(s[i + 1].value),
{
    lemma_sample_at_key(s, i);
    lemma_sample_at_key(s, i + 1);
}

/// Sampling yields no value outside `[first.coordinate, last.coordinate]`,
/// and none at all with fewer than two keys.
pub proof fn lemma_sample_out_of_domain<T: Coordinate, V: Interpolate<T>>(s: Seq<Key<T, V>>, x: T)
    requires
        s.len() < 2 || !s[0].coordinate.le_spec(x) || !x.le_spec(s.last().coordinate),
    ensures
        sample_spec(s, x) is None,
{
}

/// Clamped sampling never yields "no value" once the spline has a key.
pub proof fn lemma_clamped_sample_total<T: Coordinate, V: Interpolate<T>>(s: Seq<Key<T, V>>, x: T)
    requires
        sorted(s),
        s.len() >= 1,
    ensures
        clamped_spec(s, x) is Some,
{
    if x.le_spec(s[0].coordinate) {
    } else if s.last().coordinate.le_spec(x) {
    } else {
        T::lemma_le_total(x, s[0].coordinate);
        T::lemma_le_total(s.last().coordinate, x);
        assert(s.last() == s[s.len() - 1]);
        if s.len() == 1 {
            assert(false);
        }
    }
}

/// Clamped sampling is the first key's value at or below the first
/// coordinate, and the last key's value at or above the last coordinate
/// (the first key wins when both bounds apply at once).
pub proof fn lemma_clamped_sample_at_bounds<T: Coordinate, V: Interpolate<T>>(s: Seq<Key<T, V>>, x: T)
    requires
        sorted(s),
        s.len() >= 1,
    ensures
        x.le_spec(s[0].coordinate) ==> clamped_spec(s, x) == Some(s[0].value),
        s.last().coordinate.le_spec(x) && !x.le_spec(s[0].coordinate) ==> clamped_spec(s, x) == Some(s.last().value),
{
}

/// A Catmull-Rom first segment, which has no preceding key to take a tangent
/// from, blends exactly as a linear first segment over keys with the same
/// coordinates and values.
pub proof fn lemma_catmull_rom_first_segment_linear<T: Coordinate, V: Interpolate<T>>(s_cr: Seq<Key<T, V>>, s_lin: Seq<Key<T, V>>, x: T)
    requires
        sorted(s_cr),
        s_cr.len() >= 2,
        s_lin.len() == s_cr.len(),
        forall|i: int| 0 <= i < s_cr.len() ==> #[trigger] s_lin[i].coordinate == s_cr[i].coordinate
            && s_lin[i].value == s_cr[i].value,
        s_cr[0].mode == Interpolation::<V>::CatmullRom,
        s_lin[0].mode == Interpolation::<V>::Linear,
        s_cr[0].coordinate.le_spec(x),
        !s_cr[1].coordinate.le_spec(x),
    ensures
        sample_spec(s_cr, x) == sample_spec(s_lin, x),
{
    assert(s_cr.last() == s_cr[s_cr.len() - 1]);
    assert(s_lin.last() == s_lin[s_lin.len() - 1]);
    T::lemma_le_total(x, s_cr[1].coordinate);
    assert(x.le_spec(s_cr.last().coordinate)) by {
        assert(s_cr[1].coordinate.le_spec(s_cr[s_cr.len() - 1].coordinate));
        T::lemma_le_trans(x, s_cr[1].coordinate, s_cr[s_cr.len() - 1].coordinate);
    }
    assert(!s_cr.last().coordinate.le_spec(x)) by {
        if s_cr.last().coordinate.le_spec(x) {
            assert(s_cr[1].coordinate.le_spec(s_cr[s_cr.len() - 1].coordinate));
            T::lemma_le_trans(s_cr[1].coordinate, s_cr[s_cr.len() - 1].coordinate, x);
        }
    }
    lemma_seg_of_props(s_cr, x);
    let j = seg_of(s_cr, x);
    if j > 0 {
        assert(s_cr[1].coordinate.le_spec(s_cr[j].coordinate));
        T::lemma_le_trans(s_cr[1].coordinate, s_cr[j].coordinate, x);
        assert(false);
    }
    assert(j == 0);
    lemma_seg_of_same_coordinates(s_cr, s_lin, x);
    assert(s_lin[0].coordinate == s_cr[0].coordinate && s_lin[1].coordinate == s_cr[1].coordinate);
    assert(s_lin[0].value == s_cr[0].value && s_lin[1].value == s_cr[1].value);
}

} // verus!

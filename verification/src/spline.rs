//! The spline: an ordered key sequence, segment location, and sampling.

use crate::interpolate::Coordinate;
use crate::interpolate::Interpolate;
use crate::interpolation::Interpolation;
use crate::key::Key;
use vstd::prelude::*;

verus! {

/// The keys are sorted ascending by coordinate. Duplicate coordinates are
/// permitted; such a segment has zero length.
pub open spec fn sorted<T: Coordinate, V: Interpolate<T>>(s: Seq<Key<T, V>>) -> bool {
    forall|i: int, j: int|
        0 <= i <= j < s.len() ==> #[trigger] s[i].coordinate.le_spec(s[j].coordinate)
}

/// The index of the segment-start key for coordinate `x`: the largest index
/// whose coordinate is at most `x`, and `0` when there is none. At a
/// coordinate shared by several keys this picks the last of them, so sampling
/// exactly at a key coordinate yields that key's value.
pub open spec fn seg_of<T: Coordinate, V: Interpolate<T>>(s: Seq<Key<T, V>>, x: T) -> int
    decreases s.len(),
{
    if s.len() <= 1 {
        0
    } else if s.last().coordinate.le_spec(x) {
        s.len() - 1
    } else {
        seg_of(s.drop_last(), x)
    }
}

/// The value of the segment `[s[i], s[i + 1]]` at coordinate `x`: `x` is
/// normalized into the blend-ratio domain and dispatched on the lower key's
/// mode. A Catmull-Rom segment without a neighbor on either side falls back
/// to the linear blend.
pub open spec fn interp_at<T: Coordinate, V: Interpolate<T>>(s: Seq<Key<T, V>>, i: int, x: T) -> V {
    let lo = s[i];
    let hi = s[i + 1];
    let t = T::normalize_spec(x, lo.coordinate, hi.coordinate);
    match lo.mode {
        Interpolation::Step => lo.value,
        Interpolation::Linear => V::lerp_spec(lo.value, hi.value, t),
        Interpolation::Cosine => V::cosine_spec(lo.value, hi.value, t),
        Interpolation::CatmullRom => {
            if i == 0 || i + 2 >= s.len() {
                V::lerp_spec(lo.value, hi.value, t)
            } else {
                V::cubic_hermite_spec(
                    (s[i - 1].value, s[i - 1].coordinate),
                    (lo.value, lo.coordinate),
                    (hi.value, hi.coordinate),
                    (s[i + 2].value, s[i + 2].coordinate),
                    t,
                )
            }
        },
        Interpolation::Bezier(u) => V::quadratic_bezier_spec(lo.value, u, hi.value, t),
        Interpolation::StrokeBezier(u, w) => V::cubic_bezier_spec(lo.value, u, w, hi.value, t),
    }
}

/// What sampling returns: no value with fewer than two keys or outside
/// `[first.coordinate, last.coordinate]`; the last key's value exactly at the
/// upper bound; otherwise the located segment's blend.
pub open spec fn sample_spec<T: Coordinate, V: Interpolate<T>>(s: Seq<Key<T, V>>, x: T) -> Option<V> {
    if s.len() < 2 {
        None
    } else if !s[0].coordinate.le_spec(x) || !x.le_spec(s.last().coordinate) {
        None
    } else if s.last().coordinate.le_spec(x) {
        Some(s.last().value)
    } else {
        Some(interp_at(s, seg_of(s, x), x))
    }
}

/// What clamped sampling returns: the first key's value at or below the first
/// coordinate, the last key's value at or above the last coordinate, and the
/// plain sample in between; no value only for an empty spline.
pub open spec fn clamped_spec<T: Coordinate, V: Interpolate<T>>(s: Seq<Key<T, V>>, x: T) -> Option<V> {
    if s.len() == 0 {
        None
    } else if x.le_spec(s[0].coordinate) {
        Some(s[0].value)
    } else if s.last().coordinate.le_spec(x) {
        Some(s.last().value)
    } else {
        sample_spec(s, x)
    }
}

/// `s` with `k` inserted behind every key whose coordinate is at most `k`'s:
/// the ordered insertion, stable for equal coordinates.
pub open spec fn inserted<T: Coordinate, V: Interpolate<T>>(s: Seq<Key<T, V>>, k: Key<T, V>) -> Seq<Key<T, V>>
    decreases s.len(),
{
    if s.len() == 0 {
        seq![k]
    } else if s.last().coordinate.le_spec(k.coordinate) {
        s.push(k)
    } else {
        inserted(s.drop_last(), k).push(s.last())
    }
}

/// `s` brought into ascending coordinate order by inserting its keys in turn:
/// a stable sort, so keys with equal coordinates keep their relative order.
pub open spec fn stable_sorted<T: Coordinate, V: Interpolate<T>>(s: Seq<Key<T, V>>) -> Seq<Key<T, V>>
    decreases s.len(),
{
    if s.len() == 0 {
        Seq::<Key<T, V>>::empty()
    } else {
        inserted(stable_sorted(s.drop_last()), s.last())
    }
}

/// The properties of [`seg_of`] on a sorted sequence: it stays in range, its
/// key's coordinate is at most `x` whenever the first key's is, and every key
/// whose coordinate is at most `x` stands at or before it.
pub proof fn lemma_seg_of_props<T: Coordinate, V: Interpolate<T>>(s: Seq<Key<T, V>>, x: T)
    requires
        sorted(s),
        s.len() >= 1,
    ensures
        0 <= seg_of(s, x) < s.len(),
        s[0].coordinate.le_spec(x) ==> s[seg_of(s, x)].coordinate.le_spec(x),
        forall|j: int| 0 <= j < s.len() && #[trigger] s[j].coordinate.le_spec(x) ==> j <= seg_of(s, x),
    decreases s.len(),
{
    if s.len() <= 1 {
    } else if s.last().coordinate.le_spec(x) {
    } else {
        let dl = s.drop_last();
        assert(forall|i: int, j: int|
            0 <= i <= j < dl.len() ==> #[trigger] dl[i].coordinate.le_spec(dl[j].coordinate)) by {
            assert(forall|i: int, j: int| 0 <= i <= j < dl.len() ==> dl[i] == s[i] && dl[j] == s[j]);
        }
        lemma_seg_of_props(dl, x);
        assert(dl[0] == s[0]);
        assert(dl[seg_of(dl, x)] == s[seg_of(s, x)]);
        assert forall|j: int| 0 <= j < s.len() && #[trigger] s[j].coordinate.le_spec(x) implies j <= seg_of(s, x) by {
            if j < s.len() - 1 {
                assert(dl[j] == s[j]);
                assert(dl[j].coordinate.le_spec(x));
            } else {
                assert(s.last() == s[s.len() - 1]);
            }
        }
    }
}

/// On sequences with pointwise equal coordinates, [`seg_of`] agrees.
pub proof fn lemma_seg_of_same_coordinates<T: Coordinate, V: Interpolate<T>>(s1: Seq<Key<T, V>>, s2: Seq<Key<T, V>>, x: T)
    requires
        s1.len() == s2.len(),
        forall|i: int| 0 <= i < s1.len() ==> #[trigger] s1[i].coordinate == s2[i].coordinate,
    ensures
        seg_of(s1, x) == seg_of(s2, x),
    decreases s1.len(),
{
    if s1.len() <= 1 {
    } else {
        assert(s1.last().coordinate == s2.last().coordinate);
        if s1.last().coordinate.le_spec(x) {
        } else {
            assert(forall|i: int|
                0 <= i < s1.drop_last().len() ==> #[trigger] s1.drop_last()[i].coordinate == s2.drop_last()[i].coordinate) by {
                assert(forall|i: int|
                    0 <= i < s1.drop_last().len() ==> s1.drop_last()[i] == s1[i] && s2.drop_last()[i] == s2[i]);
            }
            lemma_seg_of_same_coordinates(s1.drop_last(), s2.drop_last(), x);
        }
    }
}

/// Ordered insertion at the position found by binary search: when everything
/// before `p` is at most `k` and nothing from `p` on is, [`inserted`] is the
/// plain insertion at `p`, and it is sorted.
pub proof fn lemma_inserted_at<T: Coordinate, V: Interpolate<T>>(s: Seq<Key<T, V>>, k: Key<T, V>, p: int)
    requires
        sorted(s),
        0 <= p <= s.len(),
        forall|j: int| 0 <= j < p ==> #[trigger] s[j].coordinate.le_spec(k.coordinate),
        forall|j: int| p <= j < s.len() ==> !(#[trigger] s[j].coordinate.le_spec(k.coordinate)),
    ensures
        inserted(s, k) == s.insert(p, k),
        sorted(s.insert(p, k)),
    decreases s.len(),
{
    let r = s.insert(p, k);
    assert forall|i: int, j: int| 0 <= i <= j < r.len() implies #[trigger] r[i].coordinate.le_spec(r[j].coordinate) by {
        T::lemma_le_refl(k.coordinate);
        if i == p && j == p {
        } else if i == p {
            // k against a later original key s[j - 1], which is not at most k
            T::lemma_le_total(k.coordinate, s[j - 1].coordinate);
        } else if j == p {
            // an earlier original key s[i] against k
        } else {
            let i0 = if i < p { i } else { i - 1 };
            let j0 = if j < p { j } else { j - 1 };
            assert(r[i] == s[i0] && r[j] == s[j0]);
        }
    }
    if s.len() == 0 {
        assert(inserted(s, k) =~= r);
    } else if s.last().coordinate.le_spec(k.coordinate) {
        assert(p == s.len()) by {
            assert(s[s.len() - 1].coordinate.le_spec(k.coordinate));
        }
        assert(s.push(k) =~= r);
    } else {
        assert(p < s.len());
        let dl = s.drop_last();
        assert(forall|i: int, j: int|
            0 <= i <= j < dl.len() ==> #[trigger] dl[i].coordinate.le_spec(dl[j].coordinate)) by {
            assert(forall|i: int, j: int| 0 <= i <= j < dl.len() ==> dl[i] == s[i] && dl[j] == s[j]);
        }
        assert(forall|j: int| 0 <= j < p ==> #[trigger] dl[j].coordinate.le_spec(k.coordinate)) by {
            assert(forall|j: int| 0 <= j < p ==> dl[j] == s[j]);
        }
        assert(forall|j: int| p <= j < dl.len() ==> !(#[trigger] dl[j].coordinate.le_spec(k.coordinate))) by {
            assert(forall|j: int| p <= j < dl.len() ==> dl[j] == s[j]);
        }
        lemma_inserted_at(dl, k, p);
        assert(dl.insert(p, k).push(s.last()) =~= r);
    }
}

/// A spline: keys in ascending coordinate order, sampled by locating the
/// enclosing segment with binary search and blending through the value
/// type's [`Interpolate`] capability.
///
/// Replacing or removing a key does not re-sort; keeping the order ascending
/// is then the caller's responsibility, and sampling is specified only while
/// it holds.
pub struct Spline<T: Coordinate, V: Interpolate<T>> {
    pub(crate) keys: Vec<Key<T, V>>,
}

impl<T: Coordinate, V: Interpolate<T>> Spline<T, V> {
    /// The keys in stored order.
    pub closed spec fn key_seq(self) -> Seq<Key<T, V>> {
        self.keys@
    }

    /// The stored keys are in ascending coordinate order.
    pub open spec fn is_sorted(self) -> bool {
        sorted(self.key_seq())
    }

    /// The model is the storage, for the crate's other modules.
    pub(crate) proof fn lemma_key_seq_is_storage(self)
        ensures
            self.key_seq() == self.keys@,
    {
    }

    /// Builds a spline from keys in any order; they are brought into
    /// ascending coordinate order by a stable sort.
    pub fn from_vec(keys: Vec<Key<T, V>>) -> (s: Self)
        ensures
            s.key_seq() == stable_sorted(keys@),
            s.is_sorted(),
    {
        let n = keys.len();
        let mut sp = Spline { keys: Vec::new() };
        assert(keys@.take(0) =~= Seq::<Key<T, V>>::empty());
        let mut i: usize = 0;
        while i < n
            invariant
                i <= n,
                n == keys@.len(),
                sp.key_seq() == stable_sorted(keys@.take(i as int)),
                sp.is_sorted(),
            decreases n - i,
        {
            sp.add(keys[i]);
            proof {
                assert(keys@.take(i + 1).drop_last() =~= keys@.take(i as int));
                assert(keys@.take(i + 1).last() == keys@[i as int]);
            }
            i += 1;
        }
        proof {
            assert(keys@.take(n as int) =~= keys@);
        }
        sp
    }

    /// The number of keys.
    pub fn len(&self) -> (n: usize)
        ensures
            n == self.key_seq().len(),
    {
        self.keys.len()
    }

    /// Whether the spline holds no key.
    pub fn is_empty(&self) -> (r: bool)
        ensures
            r == (self.key_seq().len() == 0),
    {
        self.keys.len() == 0
    }

    /// The key at `index`, or no value out of range.
    pub fn get(&self, index: usize) -> (r: Option<Key<T, V>>)
        ensures
            index < self.key_seq().len() ==> r == Some(self.key_seq()[index as int]),
            index >= self.key_seq().len() ==> r is None,
    {
        if index < self.keys.len() {
            Some(self.keys[index])
        } else {
            None
        }
    }

    /// Inserts a key in coordinate order, behind every key whose coordinate
    /// is at most the new key's, so insertion is stable; found by binary
    /// search.
    pub fn add(&mut self, key: Key<T, V>)
        requires
            old(self).is_sorted(),
        ensures
            final(self).key_seq() == inserted(old(self).key_seq(), key),
            final(self).is_sorted(),
    {
        let ghost s = self.keys@;
        let n = self.keys.len();
        let mut lo: usize = 0;
        let mut hi: usize = n;
        while lo < hi
            invariant
                lo <= hi <= n,
                n == s.len(),
                self.keys@ == s,
                sorted(s),
                forall|j: int| 0 <= j < lo ==> #[trigger] s[j].coordinate.le_spec(key.coordinate),
                forall|j: int| hi <= j < n ==> !(#[trigger] s[j].coordinate.le_spec(key.coordinate)),
            decreases hi - lo,
        {
            let mid = lo + (hi - lo) / 2;
            if self.keys[mid].coordinate.le(key.coordinate) {
                proof {
                    assert forall|j: int| 0 <= j < mid + 1 implies #[trigger] s[j].coordinate.le_spec(key.coordinate) by {
                        assert(s[j].coordinate.le_spec(s[mid as int].coordinate));
                        T::lemma_le_trans(s[j].coordinate, s[mid as int].coordinate, key.coordinate);
                    }
                }
                lo = mid + 1;
            } else {
                proof {
                    assert forall|j: int| mid <= j < n implies !(#[trigger] s[j].coordinate.le_spec(key.coordinate)) by {
                        if s[j].coordinate.le_spec(key.coordinate) {
                            assert(s[mid as int].coordinate.le_spec(s[j].coordinate));
                            T::lemma_le_trans(s[mid as int].coordinate, s[j].coordinate, key.coordinate);
                        }
                    }
                }
                hi = mid;
            }
        }
        proof {
            lemma_inserted_at(s, key, lo as int);
        }
        self.keys.insert(lo, key);
    }

    /// Replaces the key at `index`, returning the previous key, or signals an
    /// out-of-range index with no value. The order is not re-established.
    pub fn replace(&mut self, index: usize, key: Key<T, V>) -> (prev: Option<Key<T, V>>)
        ensures
            index < old(self).key_seq().len() ==> prev == Some(old(self).key_seq()[index as int])
                && final(self).key_seq() == old(self).key_seq().update(index as int, key),
            index >= old(self).key_seq().len() ==> prev is None && final(self).key_seq() == old(self).key_seq(),
    {
        if index < self.keys.len() {
            let prev = self.keys[index];
            self.keys.set(index, key);
            Some(prev)
        } else {
            None
        }
    }

    /// Removes and returns the key at `index`, or signals an out-of-range
    /// index with no value. Removal keeps ascending order.
    pub fn remove(&mut self, index: usize) -> (prev: Option<Key<T, V>>)
        ensures
            index < old(self).key_seq().len() ==> prev == Some(old(self).key_seq()[index as int])
                && final(self).key_seq() == old(self).key_seq().remove(index as int),
            index >= old(self).key_seq().len() ==> prev is None && final(self).key_seq() == old(self).key_seq(),
            old(self).is_sorted() ==> final(self).is_sorted(),
    {
        if index < self.keys.len() {
            let ghost s = self.keys@;
            let prev = self.keys.remove(index);
            proof {
                if sorted::<T, V>(s) {
                    let r = s.remove(index as int);
                    assert forall|i: int, j: int| 0 <= i <= j < r.len() implies #[trigger] r[i].coordinate.le_spec(r[j].coordinate) by {
                        let i0 = if i < index { i } else { i + 1 };
                        let j0 = if j < index { j } else { j + 1 };
                        assert(r[i] == s[i0] && r[j] == s[j0]);
                    }
                }
            }
            Some(prev)
        } else {
            None
        }
    }

    /// Samples the curve at `x`: no value outside the key range or with fewer
    /// than two keys; otherwise the enclosing segment's blend, found by
    /// binary search, with ties at equal coordinates resolved to the last
    /// matching key.
    pub fn sample(&self, x: T) -> (r: Option<V>)
        requires
            self.is_sorted(),
        ensures
            r == sample_spec(self.key_seq(), x),
    {
        let ghost s = self.keys@;
        let n = self.keys.len();
        if n < 2 {
            return None;
        }
        if !self.keys[0].coordinate.le(x) {
            return None;
        }
        if !x.le(self.keys[n - 1].coordinate) {
            return None;
        }
        if self.keys[n - 1].coordinate.le(x) {
            return Some(self.keys[n - 1].value);
        }
        let mut lo: usize = 0;
        let mut hi: usize = n - 1;
        while lo + 1 < hi
            invariant
                0 <= lo < hi <= n - 1,
                n == s.len(),
                self.keys@ == s,
                sorted(s),
                s[lo as int].coordinate.le_spec(x),
                !s[hi as int].coordinate.le_spec(x),
            decreases hi - lo,
        {
            let mid = lo + (hi - lo) / 2;
            if self.keys[mid].coordinate.le(x) {
                lo = mid;
            } else {
                hi = mid;
            }
        }
        proof {
            lemma_seg_of_props(s, x);
            if seg_of(s, x) > lo as int {
                assert(s[hi as int].coordinate.le_spec(s[seg_of(s, x)].coordinate));
                T::lemma_le_trans(s[hi as int].coordinate, s[seg_of(s, x)].coordinate, x);
            }
            assert(seg_of(s, x) == lo as int);
            T::lemma_le_total(x, s[lo as int + 1].coordinate);
        }
        let i = lo;
        let lo_k = self.keys[i];
        let hi_k = self.keys[i + 1];
        let t = T::normalize(x, lo_k.coordinate, hi_k.coordinate);
        let r = match lo_k.mode {
            Interpolation::Step => lo_k.value,
            Interpolation::Linear => V::lerp(lo_k.value, hi_k.value, t),
            Interpolation::Cosine => V::cosine(lo_k.value, hi_k.value, t),
            Interpolation::CatmullRom => {
                if i == 0 || i + 2 >= n {
                    V::lerp(lo_k.value, hi_k.value, t)
                } else {
                    V::cubic_hermite(
                        (self.keys[i - 1].value, self.keys[i - 1].coordinate),
                        (lo_k.value, lo_k.coordinate),
                        (hi_k.value, hi_k.coordinate),
                        (self.keys[i + 2].value, self.keys[i + 2].coordinate),
                        t,
                    )
                }
            },
            Interpolation::Bezier(u) => V::quadratic_bezier(lo_k.value, u, hi_k.value, t),
            Interpolation::StrokeBezier(u, w) => V::cubic_bezier(lo_k.value, u, w, hi_k.value, t),
        };
        Some(r)
    }

    /// Samples with the coordinate clamped to the key range: below the first
    /// key it yields the first key's value, above the last the last key's
    /// value; no value only for an empty spline.
    pub fn clamped_sample(&self, x: T) -> (r: Option<V>)
        requires
            self.is_sorted(),
        ensures
            r == clamped_spec(self.key_seq(), x),
    {
        let n = self.keys.len();
        if n == 0 {
            return None;
        }
        if x.le(self.keys[0].coordinate) {
            return Some(self.keys[0].value);
        }
        if self.keys[n - 1].coordinate.le(x) {
            return Some(self.keys[n - 1].value);
        }
        proof {
            T::lemma_le_total(self.keys@[0].coordinate, x);
            T::lemma_le_total(x, self.keys@[n - 1].coordinate);
        }
        self.sample(x)
    }
}

} // verus!

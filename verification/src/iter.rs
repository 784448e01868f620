//! Read-only forward traversal over a spline's keys.

use crate::interpolate::Coordinate;
use crate::interpolate::Interpolate;
use crate::key::Key;
use crate::spline::Spline;
use vstd::prelude::*;

verus! {

/// A forward, finite, restartable traversal yielding a spline's keys in
/// stored (ascending coordinate) order. It borrows the spline, so the keys
/// cannot be mutated while it lives.
pub struct Iter<'a, T: Coordinate, V: Interpolate<T>> {
    spline: &'a Spline<T, V>,
    i: usize,
}

impl<'a, T: Coordinate, V: Interpolate<T>> Iter<'a, T, V> {
    /// The keys being traversed.
    pub closed spec fn key_seq(self) -> Seq<Key<T, V>> {
        self.spline.key_seq()
    }

    /// The position of the next key to yield.
    pub closed spec fn pos(self) -> int {
        self.i as int
    }

    /// Yields the key at the cursor and advances, or signals exhaustion.
    pub fn next(&mut self) -> (r: Option<Key<T, V>>)
        ensures
            final(self).key_seq() == old(self).key_seq(),
            old(self).pos() < old(self).key_seq().len() ==> (final(self).pos() == old(self).pos() + 1
                && r == Some(old(self).key_seq()[old(self).pos()])),
            old(self).pos() >= old(self).key_seq().len() ==> (r is None && final(self).pos() == old(
                self,
            ).pos()),
    {
        proof {
            self.spline.lemma_key_seq_is_storage();
        }
        if self.i < self.spline.keys.len() {
            let k = self.spline.keys[self.i];
            self.i = self.i + 1;
            Some(k)
        } else {
            None
        }
    }
}

impl<T: Coordinate, V: Interpolate<T>> Spline<T, V> {
    /// Starts a traversal over the keys in stored order.
    pub fn iter(&self) -> (it: Iter<'_, T, V>)
        ensures
            it.key_seq() == self.key_seq(),
            it.pos() == 0,
    {
        Iter { spline: self, i: 0 }
    }
}

} // verus!

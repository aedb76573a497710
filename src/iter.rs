//! Walking the keys of a spline in order.
use crate::key::Key;
use crate::spline::Spline;
use vstd::prelude::*;

verus! {

/// The keys of a spline, one at a time, in ascending order of parameter.
pub struct Iter<'a, T, V> {
    spline: &'a Spline<T, V>,
    i: usize,
}

impl<'a, T, V> Iter<'a, T, V> {
    /// The keys walked over.
    pub closed spec fn keys(&self) -> Seq<Key<T, V>> {
        self.spline@
    }

    /// How many keys have been handed out.
    pub closed spec fn position(&self) -> int {
        self.i as int
    }

    /// The next key, if any is left.
    pub fn next(&mut self) -> (r: Option<&'a Key<T, V>>)
        ensures
            final(self).keys() == old(self).keys(),
            old(self).position() < old(self).keys().len() ==> {
                &&& r == Some(&old(self).keys()[old(self).position()])
                &&& final(self).position() == old(self).position() + 1
            },
            old(self).position() >= old(self).keys().len() ==> {
                &&& r is None
                &&& final(self).position() == old(self).position()
            },
    {
        if self.i < self.spline.len() {
            let k = self.spline.get(self.i);
            self.i = self.i + 1;
            k
        } else {
            None
        }
    }
}

impl<T, V> Spline<T, V> {
    /// Walks the keys in order, from the first.
    pub fn iter(&self) -> (r: Iter<'_, T, V>)
        ensures
            r.keys() == self@,
            r.position() == 0,
    {
        Iter { spline: self, i: 0 }
    }
}

} // verus!

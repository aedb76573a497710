//! Control points.
use crate::interpolation::Interpolation;
use vstd::prelude::*;

verus! {

/// A control point: the curve passes through `value` at the sampling parameter `t`, and the
/// segment that starts here is evaluated with `interpolation`.
#[derive(Copy, Clone, Debug, PartialEq, Eq)]
pub struct Key<T, V> {
    /// Sampling parameter at which the key is reached.
    pub t: T,
    /// Carried value.
    pub value: V,
    /// Mode of the segment that starts at this key.
    pub interpolation: Interpolation<T, V>,
}

impl<T, V> Key<T, V> {
    /// Creates a key.
    pub fn new(t: T, value: V, interpolation: Interpolation<T, V>) -> (r: Self)
        ensures
            r.t == t,
            r.value == value,
            r.interpolation == interpolation,
    {
        Key { t, value, interpolation }
    }
}

} // verus!

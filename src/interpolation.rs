//! Interpolation modes.
use vstd::prelude::*;

verus! {

/// How the segment that starts at a key is evaluated.
///
/// The mode of the lower key of a segment decides; the mode of the last key of a spline is only
/// read when the key before it is Bézier.
#[derive(Copy, Clone, Debug, PartialEq, Eq)]
pub enum Interpolation<T, V> {
    /// Hold the lower key's value until the normalized position reaches the threshold; the upper
    /// key's value is used from there on. A threshold of `0` never shows the lower value inside
    /// the segment, a threshold of `1` always does.
    Step(T),
    /// Straight blend towards the next key.
    Linear,
    /// Blend towards the next key with a cosine-shaped weight.
    Cosine,
    /// Cubic Hermite blend whose tangents come from the keys around the segment; it needs one key
    /// before the segment and one after it.
    CatmullRom,
    /// Bézier blend with one outgoing tangent point. The segment is cubic when the next key is
    /// Bézier too (its tangent is mirrored through it), quadratic otherwise.
    Bezier(V),
    /// Bézier blend with an explicit outgoing tangent (first) and incoming tangent (second).
    StrokeBezier(V, V),
}

impl<T, V> Default for Interpolation<T, V> {
    /// `Linear` is the default mode.
    fn default() -> (r: Self)
        ensures
            r is Linear,
    {
        Interpolation::Linear
    }
}

} // verus!

//! What a sampling-parameter type and a carried-value type provide to the spline.
//!
//! Both traits are implemented by the users of the library for their own numeric, vector or
//! quaternion types. Each operation comes with a spec function naming its result, and the method
//! returns exactly that: the operations are pure functions of their arguments. The spline states
//! its results in terms of these spec functions, so its contracts hold for every implementation.
use crate::order::lt;
use vstd::prelude::*;
use vstd::std_specs::cmp::PartialOrdSpec;

verus! {

/// A type that can serve as sampling parameter (often time).
///
/// Its order is the one of `PartialOrd`; the spline's contracts are exact when that order is a
/// total preorder (see `order::ordered`).
pub trait Interpolator: Sized + Copy + PartialOrd {
    /// The fractional position of `self` between `start` and `end`: `0` at `start`, `1` at
    /// `end`.
    spec fn normalize_spec(self, start: Self, end: Self) -> Self;

    /// Computes `normalize_spec`. The spline only calls it with `start` strictly before `end`
    /// (see `laws::law_segments_not_degenerate`).
    fn normalize(self, start: Self, end: Self) -> (r: Self)
        ensures
            r == self.normalize_spec(start, end),
    ;
}

/// A value that can be blended along a spline whose sampling parameter is `T`.
///
/// Every operation takes the normalized position first, nominally in `[0, 1]`.
pub trait Interpolate<T>: Sized + Copy {
    /// Linear blend from `a` (at `0`) to `b` (at `1`).
    spec fn lerp_spec(t: T, a: Self, b: Self) -> Self;

    /// Linear blend reweighted by `(1 - cos(t * pi)) / 2`.
    spec fn cosine_spec(t: T, a: Self, b: Self) -> Self;

    /// Cubic Hermite blend between `a` and `b`, with tangents taken from the neighbours `x`
    /// (before `a`) and `y` (after `b`); each pair is (sampling parameter, value).
    spec fn cubic_hermite_spec(t: T, x: (T, Self), a: (T, Self), b: (T, Self), y: (T, Self)) -> Self;

    /// Quadratic Bézier blend from `a` to `b` with the tangent point `u`.
    spec fn quadratic_bezier_spec(t: T, a: Self, u: Self, b: Self) -> Self;

    /// Cubic Bézier blend from `a` to `b` with the outgoing tangent point `u` of `a` and the
    /// incoming tangent point `v` of `b`.
    spec fn cubic_bezier_spec(t: T, a: Self, u: Self, v: Self, b: Self) -> Self;

    /// Cubic Bézier blend where `v` is the outgoing tangent point of `b`; the incoming one is its
    /// mirror through `b`, `b + (b - v)`.
    spec fn cubic_bezier_mirrored_spec(t: T, a: Self, u: Self, v: Self, b: Self) -> Self;

    /// Step: `a` while `t` is below `threshold`, `b` from there on (also when the two do not
    /// compare).
    fn step(t: T, threshold: T, a: Self, b: Self) -> (r: Self)
        where
            T: PartialOrd,
        ensures
            T::obeys_partial_cmp_spec() ==> r == if lt(t, threshold) {
                a
            } else {
                b
            },
    {
        if t < threshold {
            a
        } else {
            b
        }
    }

    /// Computes `lerp_spec`.
    fn lerp(t: T, a: Self, b: Self) -> (r: Self)
        ensures
            r == Self::lerp_spec(t, a, b),
    ;

    /// Computes `cosine_spec`.
    fn cosine(t: T, a: Self, b: Self) -> (r: Self)
        ensures
            r == Self::cosine_spec(t, a, b),
    ;

    /// Computes `cubic_hermite_spec`.
    fn cubic_hermite(t: T, x: (T, Self), a: (T, Self), b: (T, Self), y: (T, Self)) -> (r: Self)
        ensures
            r == Self::cubic_hermite_spec(t, x, a, b, y),
    ;

    /// Computes `quadratic_bezier_spec`.
    fn quadratic_bezier(t: T, a: Self, u: Self, b: Self) -> (r: Self)
        ensures
            r == Self::quadratic_bezier_spec(t, a, u, b),
    ;

    /// Computes `cubic_bezier_spec`.
    fn cubic_bezier(t: T, a: Self, u: Self, v: Self, b: Self) -> (r: Self)
        ensures
            r == Self::cubic_bezier_spec(t, a, u, v, b),
    ;

    /// Computes `cubic_bezier_mirrored_spec`.
    fn cubic_bezier_mirrored(t: T, a: Self, u: Self, v: Self, b: Self) -> (r: Self)
        ensures
            r == Self::cubic_bezier_mirrored_spec(t, a, u, v, b),
    ;
}

} // verus!

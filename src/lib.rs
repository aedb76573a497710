//! Keyframe interpolation: splines whose segments each blend the values of two control points
//! with a mode of their own.
//!
//! - `Key`: a control point, a value at a sampling parameter, with the mode of the segment that
//!   starts there (`Interpolation`).
//! - `Spline`: keys kept sorted by parameter, sampled with `Spline::sample` and
//!   `Spline::clamped_sample`.
//! - `Interpolator` and `Interpolate`: what the parameter and value types provide.
//! - `laws`: properties of sampling and building, proved over the models of `order` and
//!   `spline`.
pub mod interpolate;
pub mod interpolation;
pub mod iter;
pub mod key;
pub mod laws;
pub mod order;
pub mod spline;

pub use interpolate::{Interpolate, Interpolator};
pub use interpolation::Interpolation;
pub use iter::Iter;
pub use key::Key;
pub use spline::{KeyMut, SampledWithKey, Spline};

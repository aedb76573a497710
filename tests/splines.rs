use splines::{Interpolate, Interpolation, Interpolator, Key, Spline};

/// A plain `f32` as sampling parameter and as carried value.
#[derive(Clone, Copy, Debug, PartialEq, PartialOrd)]
struct F(f32);

impl Interpolator for F {
    // The named result of `normalize`, which the spline's contracts speak of.
    fn normalize_spec(self, start: Self, end: Self) -> Self {
        self.normalize(start, end)
    }

    fn normalize(self, start: Self, end: Self) -> Self {
        F((self.0 - start.0) / (end.0 - start.0))
    }
}

impl Interpolate<F> for F {
    // The named results of the operations, which the spline's contracts speak of.
    fn lerp_spec(t: F, a: F, b: F) -> F {
        Self::lerp(t, a, b)
    }

    fn cosine_spec(t: F, a: F, b: F) -> F {
        Self::cosine(t, a, b)
    }

    fn cubic_hermite_spec(t: F, x: (F, F), a: (F, F), b: (F, F), y: (F, F)) -> F {
        Self::cubic_hermite(t, x, a, b, y)
    }

    fn quadratic_bezier_spec(t: F, a: F, u: F, b: F) -> F {
        Self::quadratic_bezier(t, a, u, b)
    }

    fn cubic_bezier_spec(t: F, a: F, u: F, v: F, b: F) -> F {
        Self::cubic_bezier(t, a, u, v, b)
    }

    fn cubic_bezier_mirrored_spec(t: F, a: F, u: F, v: F, b: F) -> F {
        Self::cubic_bezier_mirrored(t, a, u, v, b)
    }

    fn lerp(t: F, a: F, b: F) -> F {
        F(a.0 * (1. - t.0) + b.0 * t.0)
    }

    fn cosine(t: F, a: F, b: F) -> F {
        let w = (1. - (t.0 * std::f32::consts::PI).cos()) * 0.5;
        F::lerp(F(w), a, b)
    }

    fn cubic_hermite(t: F, x: (F, F), a: (F, F), b: (F, F), y: (F, F)) -> F {
        let t = t.0;
        let t2 = t * t;
        let t3 = t2 * t;
        let m0 = (b.1 .0 - x.1 .0) / (b.0 .0 - x.0 .0);
        let m1 = (y.1 .0 - a.1 .0) / (y.0 .0 - a.0 .0);
        F(a.1 .0 * (2. * t3 - 3. * t2 + 1.)
            + m0 * (t3 - 2. * t2 + t)
            + b.1 .0 * (3. * t2 - 2. * t3)
            + m1 * (t3 - t2))
    }

    fn quadratic_bezier(t: F, a: F, u: F, b: F) -> F {
        let one_t = 1. - t.0;
        F(u.0 + (a.0 - u.0) * one_t * one_t + (b.0 - u.0) * t.0 * t.0)
    }

    fn cubic_bezier(t: F, a: F, u: F, v: F, b: F) -> F {
        let t = t.0;
        let one_t = 1. - t;
        F(a.0 * one_t * one_t * one_t
            + (u.0 * one_t * one_t * t + v.0 * one_t * t * t) * 3.
            + b.0 * t * t * t)
    }

    fn cubic_bezier_mirrored(t: F, a: F, u: F, v: F, b: F) -> F {
        F::cubic_bezier(t, a, u, F(b.0 + b.0 - v.0), b)
    }
}

fn key(t: f32, value: f32, interpolation: Interpolation<F, F>) -> Key<F, F> {
    Key::new(F(t), F(value), interpolation)
}

fn sample(spline: &Spline<F, F>, t: f32) -> Option<f32> {
    spline.sample(F(t)).map(|v| v.0)
}

fn clamped_sample(spline: &Spline<F, F>, t: f32) -> Option<f32> {
    spline.clamped_sample(F(t)).map(|v| v.0)
}

#[test]
fn step_interpolation_0() {
    let start = key(0., 0., Interpolation::Step(F(0.)));
    let end = key(1., 10., Interpolation::default());
    let spline = Spline::from_vec(vec![start, end]);

    assert_eq!(sample(&spline, 0.), Some(10.));
    assert_eq!(sample(&spline, 0.1), Some(10.));
    assert_eq!(sample(&spline, 0.2), Some(10.));
    assert_eq!(sample(&spline, 0.5), Some(10.));
    assert_eq!(sample(&spline, 0.9), Some(10.));
    assert_eq!(sample(&spline, 1.), None);
    assert_eq!(clamped_sample(&spline, 1.), Some(10.));
}

#[test]
fn step_interpolation_0_5() {
    let start = key(0., 0., Interpolation::Step(F(0.5)));
    let end = key(1., 10., Interpolation::default());
    let spline = Spline::from_vec(vec![start, end]);

    assert_eq!(sample(&spline, 0.), Some(0.));
    assert_eq!(sample(&spline, 0.1), Some(0.));
    assert_eq!(sample(&spline, 0.2), Some(0.));
    assert_eq!(sample(&spline, 0.5), Some(10.));
    assert_eq!(sample(&spline, 0.9), Some(10.));
    assert_eq!(sample(&spline, 1.), None);
    assert_eq!(clamped_sample(&spline, 1.), Some(10.));
}

#[test]
fn step_interpolation_0_75() {
    let start = key(0., 0., Interpolation::Step(F(0.75)));
    let end = key(1., 10., Interpolation::default());
    let spline = Spline::from_vec(vec![start, end]);

    assert_eq!(sample(&spline, 0.), Some(0.));
    assert_eq!(sample(&spline, 0.1), Some(0.));
    assert_eq!(sample(&spline, 0.2), Some(0.));
    assert_eq!(sample(&spline, 0.5), Some(0.));
    assert_eq!(sample(&spline, 0.9), Some(10.));
    assert_eq!(sample(&spline, 1.), None);
    assert_eq!(clamped_sample(&spline, 1.), Some(10.));
}

#[test]
fn step_interpolation_1() {
    let start = key(0., 0., Interpolation::Step(F(1.)));
    let end = key(1., 10., Interpolation::default());
    let spline = Spline::from_vec(vec![start, end]);

    assert_eq!(sample(&spline, 0.), Some(0.));
    assert_eq!(sample(&spline, 0.1), Some(0.));
    assert_eq!(sample(&spline, 0.2), Some(0.));
    assert_eq!(sample(&spline, 0.5), Some(0.));
    assert_eq!(sample(&spline, 0.9), Some(0.));
    assert_eq!(sample(&spline, 1.), None);
    assert_eq!(clamped_sample(&spline, 1.), Some(10.));
}

#[test]
fn linear_interpolation() {
    let start = key(0., 0., Interpolation::Linear);
    let end = key(1., 10., Interpolation::default());
    let spline = Spline::from_vec(vec![start, end]);

    assert_eq!(sample(&spline, 0.), Some(0.));
    assert_eq!(sample(&spline, 0.1), Some(1.));
    assert_eq!(sample(&spline, 0.2), Some(2.));
    assert_eq!(sample(&spline, 0.5), Some(5.));
    assert_eq!(sample(&spline, 0.9), Some(9.));
    assert_eq!(sample(&spline, 1.), None);
    assert_eq!(clamped_sample(&spline, 1.), Some(10.));
}

#[test]
fn linear_interpolation_several_keys() {
    let start = key(0., 0., Interpolation::Linear);
    let k1 = key(1., 5., Interpolation::Linear);
    let k2 = key(2., 0., Interpolation::Linear);
    let k3 = key(3., 1., Interpolation::Linear);
    let k4 = key(10., 2., Interpolation::Linear);
    let end = key(11., 4., Interpolation::default());
    let spline = Spline::from_vec(vec![start, k1, k2, k3, k4, end]);

    assert_eq!(sample(&spline, 0.), Some(0.));
    assert_eq!(sample(&spline, 0.1), Some(0.5));
    assert_eq!(sample(&spline, 0.2), Some(1.));
    assert_eq!(sample(&spline, 0.5), Some(2.5));
    assert_eq!(sample(&spline, 0.9), Some(4.5));
    assert_eq!(sample(&spline, 1.), Some(5.));
    assert_eq!(sample(&spline, 1.5), Some(2.5));
    assert_eq!(sample(&spline, 2.), Some(0.));
    assert_eq!(sample(&spline, 2.75), Some(0.75));
    assert_eq!(sample(&spline, 3.), Some(1.));
    assert_eq!(sample(&spline, 6.5), Some(1.5));
    assert_eq!(sample(&spline, 10.), Some(2.));
    assert_eq!(clamped_sample(&spline, 11.), Some(4.));
}

#[test]
fn several_interpolations_several_keys() {
    let start = key(0., 0., Interpolation::Step(F(0.5)));
    let k1 = key(1., 5., Interpolation::Linear);
    let k2 = key(2., 0., Interpolation::Step(F(0.1)));
    let k3 = key(3., 1., Interpolation::Linear);
    let k4 = key(10., 2., Interpolation::Linear);
    let end = key(11., 4., Interpolation::default());
    let spline = Spline::from_vec(vec![start, k1, k2, k3, k4, end]);

    assert_eq!(sample(&spline, 0.), Some(0.));
    assert_eq!(sample(&spline, 0.1), Some(0.));
    assert_eq!(sample(&spline, 0.2), Some(0.));
    assert_eq!(sample(&spline, 0.5), Some(5.));
    assert_eq!(sample(&spline, 0.9), Some(5.));
    assert_eq!(sample(&spline, 1.), Some(5.));
    assert_eq!(sample(&spline, 1.5), Some(2.5));
    assert_eq!(sample(&spline, 2.), Some(0.));
    assert_eq!(sample(&spline, 2.05), Some(0.));
    assert_eq!(sample(&spline, 2.1), Some(0.));
    assert_eq!(sample(&spline, 2.75), Some(1.));
    assert_eq!(sample(&spline, 3.), Some(1.));
    assert_eq!(sample(&spline, 6.5), Some(1.5));
    assert_eq!(sample(&spline, 10.), Some(2.));
    assert_eq!(clamped_sample(&spline, 11.), Some(4.));
}

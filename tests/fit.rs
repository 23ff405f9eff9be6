use nalgebra::{DMatrix, DVector};
use rbf_interpolation::builder::{RBFInterpolatorBuilder, RbfError};
use rbf_interpolation::rbf::RBFInterpolator;

fn kernel(spec: &RBFInterpolatorBuilder<f64>, r: f64) -> f64 {
    match spec {
        RBFInterpolatorBuilder::Linear => r,
        RBFInterpolatorBuilder::ThinPlateSpline => {
            if r == 0.0 {
                0.0
            } else {
                r * r * r.ln()
            }
        }
        RBFInterpolatorBuilder::Cubic => r.powi(3),
        RBFInterpolatorBuilder::Quintic => r.powi(5),
        RBFInterpolatorBuilder::Multiquadratic { epsilon } => ((r * epsilon).powi(2) + 1.0).sqrt(),
        RBFInterpolatorBuilder::InverseMultiquadratic { epsilon } => {
            1.0 / ((r * epsilon).powi(2) + 1.0).sqrt()
        }
        RBFInterpolatorBuilder::InverseQuadratic { epsilon } => 1.0 / ((r * epsilon).powi(2) + 1.0),
        RBFInterpolatorBuilder::Gaussian { epsilon } => (-(r * epsilon).powi(2)).exp(),
    }
}

fn distance(a: &Vec<f64>, b: &Vec<f64>) -> f64 {
    a.iter().zip(b.iter()).map(|(x, y)| (x - y) * (x - y)).sum::<f64>().sqrt()
}

fn monomial(p: &Vec<f64>, e: &Vec<u32>) -> f64 {
    p.iter().zip(e.iter()).map(|(x, k)| x.powi(*k as i32)).product()
}

fn solve(a: &Vec<Vec<f64>>, b: &Vec<f64>) -> Option<Vec<f64>> {
    let n = b.len();
    let m = DMatrix::from_fn(n, n, |i, j| a[i][j]);
    let mut x = DVector::from_column_slice(b);
    if m.lu().solve_mut(&mut x) && x.iter().all(|w| w.is_finite()) {
        Some(x.iter().copied().collect())
    } else {
        None
    }
}

fn fit(
    spec: RBFInterpolatorBuilder<f64>,
    dim: usize,
    degree: u32,
    monomials: usize,
    points: Vec<Vec<f64>>,
    values: Vec<f64>,
) -> Result<RBFInterpolator<f64>, RbfError> {
    spec.build(
        dim,
        degree,
        monomials,
        points,
        values,
        0.0,
        |e: f64| e > 0.0,
        |p: &Vec<f64>, q: &Vec<f64>| kernel(&spec, distance(p, q)),
        |p: &Vec<f64>, e: &Vec<u32>| monomial(p, e),
        |a: &Vec<Vec<f64>>, b: &Vec<f64>| solve(a, b),
    )
}

fn evaluate(model: &RBFInterpolator<f64>, q: &Vec<f64>) -> f64 {
    let spec = model.kernel();
    let basis = model
        .basis_at(
            q,
            |p: &Vec<f64>, x: &Vec<f64>| kernel(spec, distance(p, x)),
            |p: &Vec<f64>, e: &Vec<u32>| monomial(p, e),
        )
        .unwrap();
    basis.iter().zip(model.weights().iter()).map(|(t, w)| w * t).sum()
}

fn plane_points() -> Vec<Vec<f64>> {
    vec![vec![2.0, 2.0], vec![3.0, 4.0], vec![6.0, 4.0], vec![1.0, 1.0], vec![7.0, 7.0]]
}

fn close(a: f64, b: f64) -> bool {
    (a - b).abs() <= 1e-9 * b.abs().max(1.0)
}

#[test]
fn thin_plate_spline_fit_in_the_plane() {
    let values = vec![2.0, 6.0, 4.0, 4.0, 5.0];
    let model = fit(RBFInterpolatorBuilder::ThinPlateSpline, 2, 1, 3, plane_points(), values)
        .unwrap();
    assert_eq!(model.shape().exponents(), &vec![vec![0, 0], vec![0, 1], vec![1, 0]]);
    assert_eq!(model.weights().len(), 8);
    assert!(close(evaluate(&model, &vec![2.0, 2.0]), 2.0));
    assert!(close(evaluate(&model, &vec![3.0, 4.0]), 6.0));
}

#[test]
fn fit_reproduces_every_sample() {
    let values = vec![2.0, 6.0, 4.0, 4.0, 5.0];
    let kernels = vec![
        RBFInterpolatorBuilder::Linear,
        RBFInterpolatorBuilder::ThinPlateSpline,
        RBFInterpolatorBuilder::Cubic,
        RBFInterpolatorBuilder::Quintic,
        RBFInterpolatorBuilder::Multiquadratic { epsilon: 0.5 },
        RBFInterpolatorBuilder::InverseMultiquadratic { epsilon: 0.5 },
        RBFInterpolatorBuilder::InverseQuadratic { epsilon: 0.5 },
        RBFInterpolatorBuilder::Gaussian { epsilon: 0.5 },
    ];
    for spec in kernels {
        let model = fit(spec, 2, 1, 3, plane_points(), values.clone()).unwrap();
        for (p, v) in plane_points().iter().zip(values.iter()) {
            let e = evaluate(&model, p);
            assert!((e - v).abs() <= 1e-6 * v.abs().max(1.0), "{} against {}", e, v);
        }
    }
}

#[test]
fn fit_with_negative_coordinates() {
    let points = vec![
        vec![2.0, 2.0],
        vec![3.0, -4.0],
        vec![6.0, -4.0],
        vec![-1.0, 1.0],
        vec![7.0, 7.0],
    ];
    let values = vec![2.0, 6.0, 4.0, 4.0, 5.0];
    let model = fit(RBFInterpolatorBuilder::ThinPlateSpline, 2, 1, 3, points, values).unwrap();
    assert!(close(evaluate(&model, &vec![2.0, 2.0]), 2.0));
    assert!(close(evaluate(&model, &vec![3.0, -4.0]), 6.0));
}

#[test]
fn basis_at_a_sample_is_its_row_of_the_system() {
    let values = vec![2.0, 6.0, 4.0, 4.0, 5.0];
    let model = fit(RBFInterpolatorBuilder::Cubic, 2, 1, 3, plane_points(), values).unwrap();
    let spec = model.kernel();
    let basis = model
        .basis_at(
            &vec![6.0, 4.0],
            |p: &Vec<f64>, x: &Vec<f64>| kernel(spec, distance(p, x)),
            |p: &Vec<f64>, e: &Vec<u32>| monomial(p, e),
        )
        .unwrap();
    assert_eq!(basis.len(), 8);
    assert_eq!(basis[2], 0.0);
    assert_eq!(basis[0], 20.0_f64.sqrt().powi(3));
    assert_eq!(basis[5..].to_vec(), vec![1.0, 4.0, 6.0]);
}

#[test]
fn fit_is_deterministic() {
    let values = vec![2.0, 6.0, 4.0, 4.0, 5.0];
    let a = fit(RBFInterpolatorBuilder::Cubic, 2, 1, 3, plane_points(), values.clone()).unwrap();
    let b = fit(RBFInterpolatorBuilder::Cubic, 2, 1, 3, plane_points(), values).unwrap();
    assert_eq!(a.weights(), b.weights());
    let q = vec![4.5, 3.25];
    assert_eq!(evaluate(&a, &q).to_bits(), evaluate(&b, &q).to_bits());
}

#[test]
fn duplicate_points_are_singular() {
    let points = vec![vec![2.0, 2.0], vec![3.0, 4.0], vec![3.0, 4.0], vec![1.0, 1.0], vec![7.0, 7.0]];
    let values = vec![2.0, 6.0, 4.0, 4.0, 5.0];
    let r = fit(RBFInterpolatorBuilder::ThinPlateSpline, 2, 1, 3, points, values);
    assert_eq!(r.err(), Some(RbfError::SingularSystem));
}

#[test]
fn gaussian_with_zero_epsilon_fails_before_assembly() {
    let values = vec![2.0, 6.0, 4.0, 4.0, 5.0];
    let spec = RBFInterpolatorBuilder::Gaussian { epsilon: 0.0 };
    let r = spec.build(
        2,
        1,
        3,
        plane_points(),
        values,
        0.0,
        |e: f64| e > 0.0,
        |_: &Vec<f64>, _: &Vec<f64>| -> f64 { panic!("kernel evaluated") },
        |_: &Vec<f64>, _: &Vec<u32>| -> f64 { panic!("monomial evaluated") },
        |_: &Vec<Vec<f64>>, _: &Vec<f64>| -> Option<Vec<f64>> { panic!("system solved") },
    );
    assert_eq!(r.err(), Some(RbfError::InvalidKernelParameter));
}

#[test]
fn build_reports_configuration_and_dimension_errors() {
    let values = vec![2.0, 6.0, 4.0, 4.0, 5.0];
    let r = fit(RBFInterpolatorBuilder::Cubic, 2, 1, 4, plane_points(), values.clone());
    assert_eq!(r.err(), Some(RbfError::ConfigMismatch));
    let r = fit(RBFInterpolatorBuilder::Cubic, 2, 2, 6, plane_points(), values[..4].to_vec());
    assert_eq!(r.err(), Some(RbfError::DimensionMismatch));
    let r = fit(RBFInterpolatorBuilder::Cubic, 0, 1, 1, plane_points(), values.clone());
    assert_eq!(r.err(), Some(RbfError::InvalidConfiguration));
    let r = fit(RBFInterpolatorBuilder::Cubic, 3, 1, 4, plane_points(), values);
    assert_eq!(r.err(), Some(RbfError::DimensionMismatch));
}

#[test]
fn quadratic_trend_in_three_dimensions() {
    let points = vec![
        vec![0.0, 0.0, 0.0],
        vec![1.0, 0.0, 0.0],
        vec![0.0, 1.0, 0.0],
        vec![0.0, 0.0, 1.0],
        vec![1.0, 1.0, 0.0],
        vec![1.0, 0.0, 1.0],
        vec![0.0, 1.0, 1.0],
        vec![1.0, 1.0, 1.0],
        vec![0.5, 0.25, 0.75],
        vec![2.0, 0.5, 1.5],
        vec![1.5, 2.0, 0.5],
        vec![0.25, 1.5, 2.0],
    ];
    let values: Vec<f64> = points.iter().map(|p| p[0] * p[1] - p[2] + 1.0).collect();
    let model = fit(
        RBFInterpolatorBuilder::Multiquadratic { epsilon: 1.0 },
        3,
        2,
        10,
        points.clone(),
        values.clone(),
    )
    .unwrap();
    for (p, v) in points.iter().zip(values.iter()) {
        assert!((evaluate(&model, p) - v).abs() <= 1e-6);
    }
}


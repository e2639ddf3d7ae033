use gaussian_mixtures::exact::{maximize_exact, Estimate, Ratio};
use gaussian_mixtures::shape::{mstep_shape, Shape, ShapeError};

fn fixture_data() -> Vec<Vec<i32>> {
    vec![vec![0, 0], vec![2, 0], vec![0, 4], vec![2, 4], vec![-3, 5]]
}

fn fixture_responsibilities() -> Vec<Vec<u16>> {
    vec![vec![1, 0], vec![1, 1], vec![0, 1], vec![2, 3], vec![4, 0]]
}

fn value(r: Ratio) -> f64 {
    r.num as f64 / r.den as f64
}

fn same(p: Ratio, q: Ratio) -> bool {
    p.num * q.den == q.num * p.den
}

fn estimate(data: &Vec<Vec<i32>>, resp: &Vec<Vec<u16>>) -> Estimate {
    maximize_exact(data, resp).unwrap()
}

/// Weighted statistics computed the plain way in floating point, to compare with.
fn float_reference(data: &[Vec<i32>], resp: &[Vec<u16>]) -> (Vec<Vec<f64>>, Vec<Vec<Vec<f64>>>, Vec<f64>) {
    let n = data.len();
    let d = data[0].len();
    let k = resp[0].len();
    let mut means = vec![vec![0.0; d]; k];
    let mut covs = vec![vec![vec![0.0; d]; d]; k];
    let mut totals = vec![0.0; k];
    for j in 0..k {
        for i in 0..n {
            totals[j] += resp[i][j] as f64;
        }
        for a in 0..d {
            let mut s = 0.0;
            for i in 0..n {
                s += resp[i][j] as f64 * data[i][a] as f64;
            }
            means[j][a] = s / totals[j];
        }
        for a in 0..d {
            for b in 0..d {
                let mut s = 0.0;
                for i in 0..n {
                    s += resp[i][j] as f64
                        * (data[i][a] as f64 - means[j][a])
                        * (data[i][b] as f64 - means[j][b]);
                }
                covs[j][a][b] = s / totals[j];
            }
        }
    }
    let grand: f64 = totals.iter().sum();
    let weights = totals.iter().map(|t| t / grand).collect();
    (means, covs, weights)
}

#[test]
fn shape_of_matching_inputs() {
    assert_eq!(mstep_shape(10, 3, 10, 4), Ok(Shape { n: 10, d: 3, k: 4 }));
}

#[test]
fn shape_mismatch_is_rejected() {
    assert_eq!(
        mstep_shape(10, 2, 9, 3),
        Err(ShapeError::RowCountMismatch { data_rows: 10, responsibility_rows: 9 })
    );
    let data: Vec<Vec<i32>> = (0..10).map(|i| vec![i, 2 * i]).collect();
    let resp: Vec<Vec<u16>> = (0..9).map(|_| vec![1, 1, 1]).collect();
    let r = maximize_exact(&data, &resp);
    assert!(matches!(
        r,
        Err(ShapeError::RowCountMismatch { data_rows: 10, responsibility_rows: 9 })
    ));
}

#[test]
fn empty_shapes_are_rejected() {
    assert_eq!(mstep_shape(0, 2, 0, 2), Err(ShapeError::NoObservations));
    assert_eq!(mstep_shape(3, 0, 3, 2), Err(ShapeError::NoDimensions));
    assert_eq!(mstep_shape(3, 2, 3, 0), Err(ShapeError::NoComponents));
    let none_i: Vec<Vec<i32>> = vec![];
    let none_u: Vec<Vec<u16>> = vec![];
    assert!(matches!(maximize_exact(&none_i, &none_u), Err(ShapeError::NoObservations)));
    assert!(matches!(
        maximize_exact(&vec![vec![]], &vec![vec![1]]),
        Err(ShapeError::NoDimensions)
    ));
    assert!(matches!(
        maximize_exact(&vec![vec![1]], &vec![vec![]]),
        Err(ShapeError::NoComponents)
    ));
}

#[test]
fn ragged_rows_are_rejected() {
    let data = vec![vec![1, 2], vec![3]];
    let resp = vec![vec![1u16], vec![1u16]];
    assert!(matches!(maximize_exact(&data, &resp), Err(ShapeError::RaggedData)));
    let data = vec![vec![1, 2], vec![3, 4]];
    let resp = vec![vec![1u16, 2], vec![1u16]];
    assert!(matches!(maximize_exact(&data, &resp), Err(ShapeError::RaggedResponsibilities)));
}

#[test]
fn fixture_exact_values() {
    let e = estimate(&fixture_data(), &fixture_responsibilities());
    assert_eq!(e.means.len(), 2);
    assert_eq!(e.means[0], vec![Ratio { num: -6, den: 8 }, Ratio { num: 28, den: 8 }]);
    assert_eq!(e.means[1], vec![Ratio { num: 8, den: 5 }, Ratio { num: 16, den: 5 }]);
    assert_eq!(
        e.covariances[0],
        vec![
            vec![Ratio { num: 348, den: 64 }, Ratio { num: -184, den: 64 }],
            vec![Ratio { num: -184, den: 64 }, Ratio { num: 272, den: 64 }],
        ]
    );
    assert_eq!(
        e.covariances[1],
        vec![
            vec![Ratio { num: 16, den: 25 }, Ratio { num: -8, den: 25 }],
            vec![Ratio { num: -8, den: 25 }, Ratio { num: 64, den: 25 }],
        ]
    );
    assert_eq!(e.weights, vec![Ratio { num: 8, den: 13 }, Ratio { num: 5, den: 13 }]);
}

#[test]
fn fixture_matches_reference_within_tolerance() {
    let data = fixture_data();
    let resp = fixture_responsibilities();
    let e = estimate(&data, &resp);
    let (means, covs, weights) = float_reference(&data, &resp);
    for j in 0..2 {
        for a in 0..2 {
            assert!((value(e.means[j][a]) - means[j][a]).abs() < 1e-9);
            for b in 0..2 {
                assert!((value(e.covariances[j][a][b]) - covs[j][a][b]).abs() < 1e-9);
            }
        }
        assert!((value(e.weights[j]) - weights[j]).abs() < 1e-9);
    }
}

#[test]
fn weights_sum_to_one() {
    let e = estimate(&fixture_data(), &fixture_responsibilities());
    let den = e.weights[0].den;
    assert!(e.weights.iter().all(|w| w.den == den));
    assert_eq!(e.weights.iter().map(|w| w.num).sum::<i128>(), den);
    let total: f64 = e.weights.iter().map(|w| value(*w)).sum();
    assert!((total - 1.0).abs() < 1e-12);
}

#[test]
fn covariances_are_symmetric_with_nonnegative_diagonal() {
    let data = vec![vec![3, -1, 7], vec![0, 2, -5], vec![4, 4, 1], vec![-2, 9, 0]];
    let resp = vec![vec![5u16, 1], vec![0, 7], vec![2, 2], vec![9, 3]];
    let e = estimate(&data, &resp);
    for j in 0..2 {
        for a in 0..3 {
            assert!(e.covariances[j][a][a].num >= 0);
            assert!(e.covariances[j][a][a].den > 0);
            for b in 0..3 {
                assert_eq!(e.covariances[j][a][b], e.covariances[j][b][a]);
            }
        }
    }
}

#[test]
fn scaling_responsibilities_changes_nothing() {
    let data = fixture_data();
    let resp = fixture_responsibilities();
    let scaled: Vec<Vec<u16>> = resp.iter().map(|row| row.iter().map(|v| v * 3).collect()).collect();
    let e = estimate(&data, &resp);
    let s = estimate(&data, &scaled);
    for j in 0..2 {
        assert!(same(e.weights[j], s.weights[j]));
        assert_ne!(e.weights[j], s.weights[j]);
        for a in 0..2 {
            assert!(same(e.means[j][a], s.means[j][a]));
            for b in 0..2 {
                assert!(same(e.covariances[j][a][b], s.covariances[j][a][b]));
            }
        }
    }
}

#[test]
fn single_component_gives_plain_statistics() {
    let data = vec![vec![1, 10], vec![2, 20], vec![6, 0]];
    let resp = vec![vec![1u16], vec![1], vec![1]];
    let e = estimate(&data, &resp);
    // mean (3, 10)
    assert!(same(e.means[0][0], Ratio { num: 3, den: 1 }));
    assert!(same(e.means[0][1], Ratio { num: 10, den: 1 }));
    // population covariance: var x = 14/3, var y = 200/3, cov = -40/3
    assert!(same(e.covariances[0][0][0], Ratio { num: 14, den: 3 }));
    assert!(same(e.covariances[0][1][1], Ratio { num: 200, den: 3 }));
    assert!(same(e.covariances[0][0][1], Ratio { num: -40, den: 3 }));
    assert_eq!(e.weights[0].num, e.weights[0].den);
}

#[test]
fn one_point_component_has_zero_covariance() {
    let data = vec![vec![1, 10], vec![2, 20], vec![6, 0]];
    let resp = vec![vec![1u16, 0], vec![1, 4], vec![1, 0]];
    let e = estimate(&data, &resp);
    assert!(same(e.means[1][0], Ratio { num: 2, den: 1 }));
    assert!(same(e.means[1][1], Ratio { num: 20, den: 1 }));
    for a in 0..2 {
        for b in 0..2 {
            assert_eq!(e.covariances[1][a][b].num, 0);
            assert_eq!(e.covariances[1][a][b].den, 16);
        }
    }
}

#[test]
fn empty_component_has_undefined_parameters() {
    let data = vec![vec![1], vec![5]];
    let resp = vec![vec![1u16, 0], vec![3, 0]];
    let e = estimate(&data, &resp);
    assert_eq!(e.means[1][0], Ratio { num: 0, den: 0 });
    assert_eq!(e.covariances[1][0][0], Ratio { num: 0, den: 0 });
    assert_eq!(e.weights[1], Ratio { num: 0, den: 4 });
    assert_eq!(e.weights[0], Ratio { num: 4, den: 4 });
}

#[test]
fn all_zero_responsibilities_give_undefined_weights() {
    let data = vec![vec![1], vec![5]];
    let resp = vec![vec![0u16], vec![0]];
    let e = estimate(&data, &resp);
    assert_eq!(e.weights[0], Ratio { num: 0, den: 0 });
}

#[test]
fn extreme_values_do_not_overflow() {
    let data = vec![
        vec![i32::MIN, i32::MAX],
        vec![i32::MAX, i32::MIN],
        vec![i32::MIN, i32::MIN],
    ];
    let resp = vec![vec![u16::MAX], vec![u16::MAX], vec![u16::MAX]];
    let e = estimate(&data, &resp);
    let t = 3 * u16::MAX as i128;
    assert_eq!(e.means[0][0].den, t);
    assert_eq!(e.means[0][0].num, u16::MAX as i128 * (2 * i32::MIN as i128 + i32::MAX as i128));
    assert_eq!(e.covariances[0][0][1], e.covariances[0][1][0]);
    assert!(e.covariances[0][0][0].num > 0);
    assert_eq!(e.weights[0], Ratio { num: t, den: t });
}

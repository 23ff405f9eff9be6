use rbf_interpolation::builder::RbfError;
use rbf_interpolation::powers::monomial_exponents;

#[test]
fn test_monomial_powers() {
    assert_eq!(monomial_exponents(2, 0), Ok(vec![vec![0, 0]]));
    assert_eq!(monomial_exponents(2, 1), Ok(vec![vec![0, 0], vec![0, 1], vec![1, 0]]));
    assert_eq!(
        monomial_exponents(2, 2),
        Ok(vec![vec![0, 0], vec![0, 1], vec![1, 0], vec![0, 2], vec![1, 1], vec![2, 0]])
    );
    assert_eq!(
        monomial_exponents(2, 3),
        Ok(vec![
            vec![0, 0],
            vec![0, 1],
            vec![1, 0],
            vec![0, 2],
            vec![1, 1],
            vec![2, 0],
            vec![0, 3],
            vec![1, 2],
            vec![2, 1],
            vec![3, 0]
        ])
    );
}

#[test]
fn monomials_of_degree_two_in_the_plane_in_order() {
    let expected: Vec<Vec<u32>> =
        vec![vec![0, 0], vec![0, 1], vec![1, 0], vec![0, 2], vec![1, 1], vec![2, 0]];
    assert_eq!(monomial_exponents(2, 2).unwrap(), expected);
}

#[test]
fn monomials_in_three_variables() {
    assert_eq!(
        monomial_exponents(3, 1),
        Ok(vec![vec![0, 0, 0], vec![0, 0, 1], vec![0, 1, 0], vec![1, 0, 0]])
    );
    let second = monomial_exponents(3, 2).unwrap();
    assert_eq!(
        second[4..].to_vec(),
        vec![
            vec![0, 0, 2],
            vec![0, 1, 1],
            vec![0, 2, 0],
            vec![1, 0, 1],
            vec![1, 1, 0],
            vec![2, 0, 0]
        ]
    );
}

#[test]
fn monomials_in_one_variable() {
    assert_eq!(monomial_exponents(1, 3), Ok(vec![vec![0], vec![1], vec![2], vec![3]]));
}

fn binomial(n: u64, k: u64) -> u64 {
    let mut r: u64 = 1;
    for i in 0..k {
        r = r * (n - i) / (i + 1);
    }
    r
}

#[test]
fn monomial_count_is_a_binomial_coefficient() {
    for dim in 1..6usize {
        for degree in 0..6u32 {
            let rows = monomial_exponents(dim, degree).unwrap();
            assert_eq!(rows.len() as u64, binomial((dim as u64) + (degree as u64), degree as u64));
            for row in &rows {
                assert_eq!(row.len(), dim);
                assert!(row.iter().sum::<u32>() <= degree);
            }
        }
    }
    assert_eq!(monomial_exponents(4, 3).unwrap().len(), 35);
}

#[test]
fn monomials_are_graded_and_distinct() {
    let rows = monomial_exponents(3, 4).unwrap();
    for w in rows.windows(2) {
        assert!(w[0].iter().sum::<u32>() <= w[1].iter().sum::<u32>());
        assert_ne!(w[0], w[1]);
    }
}

#[test]
fn zero_variables_is_an_invalid_configuration() {
    assert_eq!(monomial_exponents(0, 2), Err(RbfError::InvalidConfiguration));
    assert_eq!(monomial_exponents(0, 0), Err(RbfError::InvalidConfiguration));
}

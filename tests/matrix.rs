use raytracer::matrix::Matrix;

fn compare_floats(a: &f64, b: &f64) -> bool {
    (a - b).abs() < 0.00001
}

#[test]
fn test_matrix_4x4() {
    let m: Vec<Vec<f64>> = Matrix::construct_empty_4x4();

    assert_eq!(m[0][0], 0.0);
    assert_eq!(m[3][3], 0.0);
}

#[test]
fn test_matrix_equality() {
    let mut m1: Vec<Vec<f64>> = Matrix::construct_empty_4x4();
    let m2: Vec<Vec<f64>> = Matrix::construct_empty_4x4();
    let m3: Vec<Vec<f64>> = Matrix::construct_empty_3x3();

    assert_eq!(Matrix::are_equal(&m1, &m2, compare_floats), true);
    assert_eq!(Matrix::are_equal(&m2, &m3, compare_floats), false);

    m1[2][3] = 15.34;

    assert_eq!(Matrix::are_equal(&m1, &m2, compare_floats), false);
}

#[test]
fn empty_matrices_have_their_size() {
    let m3: Vec<Vec<i32>> = Matrix::construct_empty_3x3();
    assert_eq!(m3, vec![vec![0; 3]; 3]);
    let m2: Vec<Vec<i32>> = Matrix::construct_empty_2x2();
    assert_eq!(m2, vec![vec![0; 2]; 2]);
}

#[test]
fn equality_within_tolerance() {
    let mut m1: Vec<Vec<f64>> = Matrix::construct_empty_2x2();
    let m2: Vec<Vec<f64>> = Matrix::construct_empty_2x2();
    m1[1][0] = 0.000000001;
    assert!(Matrix::are_equal(&m1, &m2, compare_floats));
}

#[test]
fn ragged_rows_are_not_equal() {
    let m1: Vec<Vec<i32>> = vec![vec![1, 2], vec![3]];
    let m2: Vec<Vec<i32>> = vec![vec![1, 2], vec![3, 4]];
    assert!(!Matrix::are_equal(&m1, &m2, |a: &i32, b: &i32| a == b));
    assert!(Matrix::are_equal(&m1, &m1, |a: &i32, b: &i32| a == b));
    let none: Vec<Vec<i32>> = vec![];
    assert!(Matrix::are_equal(&none, &none, |a: &i32, b: &i32| a == b));
}

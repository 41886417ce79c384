use aco::matrix::DistanceMatrix;

#[test]
fn new_matrix_is_square_and_filled() {
    let m = DistanceMatrix::new(3, 0.0f64);
    assert_eq!(m.len(), 3);
    assert_eq!(m.as_vec(), &vec![vec![0.0; 3]; 3]);
}

#[test]
fn set_distance_writes_both_directions() {
    let mut m = DistanceMatrix::new(4, 0u64);
    m.set_distance(1, 3, 7);
    assert_eq!(m.get_distance(1, 3), 7);
    assert_eq!(m.get_distance(3, 1), 7);
    assert_eq!(m.get_distance(1, 2), 0);
    assert_eq!(m.get_distance(3, 3), 0);
}

#[test]
fn set_distance_on_the_diagonal() {
    let mut m = DistanceMatrix::from_vec(vec![vec![1.5, 2.0], vec![2.0, 1.5]]);
    m.set_distance(0, 0, 9.0);
    assert_eq!(m.as_vec(), &vec![vec![9.0, 2.0], vec![2.0, 1.5]]);
}

#[test]
fn set_distance_keeps_a_symmetric_matrix_symmetric() {
    let mut m = DistanceMatrix::from_vec(vec![vec![0, 1, 2], vec![1, 0, 3], vec![2, 3, 0]]);
    m.set_distance(2, 0, 10);
    m.set_distance(1, 2, 20);
    let v = m.as_vec();
    for i in 0..3 {
        for j in 0..3 {
            assert_eq!(v[i][j], v[j][i]);
        }
    }
    assert_eq!(m.get_distance(0, 2), 10);
    assert_eq!(m.get_distance(2, 1), 20);
    assert_eq!(m.get_distance(0, 1), 1);
}

#[test]
fn from_vec_keeps_rows_as_given() {
    let rows = vec![vec![0.0, 3.0], vec![4.0, 0.0]];
    let m = DistanceMatrix::from_vec(rows.clone());
    assert_eq!(m.as_vec(), &rows);
    assert_eq!(m.get_distance(1, 0), 4.0);
    assert_eq!(m.len(), 2);
}

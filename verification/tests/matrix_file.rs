use aco::matrix_file::{row_fields, square_rows, MatrixFileError};

#[test]
fn comment_and_blank_lines_are_skipped() {
    assert!(row_fields("# a comment").is_none());
    assert!(row_fields("").is_none());
    assert!(row_fields(" \t ").is_none());
    assert_eq!(
        row_fields(" # not a comment"),
        Some(vec!["#".to_string(), "not".to_string(), "a".to_string(), "comment".to_string()])
    );
}

#[test]
fn rows_are_split_on_white_space() {
    assert_eq!(
        row_fields("0 3  4\t7"),
        Some(vec!["0".to_string(), "3".to_string(), "4".to_string(), "7".to_string()])
    );
}

#[test]
fn square_rows_accepts_as_many_rows_as_cities() {
    let rows = vec![vec![0.0, 1.0], vec![1.0, 0.0]];
    assert_eq!(square_rows(rows.clone()).ok().unwrap(), rows);
    assert_eq!(square_rows(Vec::<Vec<f64>>::new()).ok().unwrap(), Vec::<Vec<f64>>::new());
    let ragged = vec![vec![0, 1], vec![1]];
    assert_eq!(square_rows(ragged.clone()).ok().unwrap(), ragged);
}

#[test]
fn square_rows_counts_cities_by_the_first_non_empty_row() {
    let rows = vec![vec![], vec![1, 2, 3], vec![4]];
    assert!(square_rows(rows).is_ok());
    let rows = vec![vec![1, 2, 3], vec![4, 5, 6]];
    let err = square_rows(rows).err().unwrap();
    assert!(matches!(err, MatrixFileError::RowCountMismatch));
    assert_eq!(err.message(), "The number of rows does not match the number of cities");
}

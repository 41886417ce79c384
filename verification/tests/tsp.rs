use aco::tsp::{check_coordinate_count, edge_weight_matrix, read_tsp_layout, TspError, TspSection};

fn lines(text: &str) -> Vec<String> {
    text.lines().map(String::from).collect()
}

const EXPLICIT: &str = "NAME: tiny
TYPE: TSP
DIMENSION: 3
EDGE_WEIGHT_TYPE: EXPLICIT
EDGE_WEIGHT_FORMAT: FULL_MATRIX
EDGE_WEIGHT_SECTION
 0 1 2
 1 0 3
 2 3 0
DISPLAY_DATA_SECTION
 1 10 10
EOF
";

#[test]
fn reads_edge_weight_section() {
    let layout = read_tsp_layout(&lines(EXPLICIT)).ok().unwrap();
    assert_eq!(layout.dimension, 3);
    match layout.section {
        TspSection::EdgeWeights(t) => assert_eq!(t, vec!["0", "1", "2", "1", "0", "3", "2", "3", "0"]),
        TspSection::NodeCoords(_) => panic!("expected edge weights"),
    }
}

#[test]
fn edge_weight_section_stops_at_eof() {
    let text = "DIMENSION : 2\nEDGE_WEIGHT_SECTION\n0 5\n5 0\n  EOF  \n7 7\n";
    let layout = read_tsp_layout(&lines(text)).ok().unwrap();
    assert_eq!(layout.dimension, 2);
    match layout.section {
        TspSection::EdgeWeights(t) => assert_eq!(t, vec!["0", "5", "5", "0"]),
        TspSection::NodeCoords(_) => panic!("expected edge weights"),
    }
}

#[test]
fn edge_weight_section_wins_over_coordinates() {
    let text = "DIMENSION: 1\nNODE_COORD_SECTION\n1 0 0\nEDGE_WEIGHT_SECTION\n0\n";
    let layout = read_tsp_layout(&lines(text)).ok().unwrap();
    match layout.section {
        TspSection::EdgeWeights(t) => assert_eq!(t, vec!["0"]),
        TspSection::NodeCoords(_) => panic!("expected edge weights"),
    }
}

#[test]
fn reads_node_coordinates() {
    let text = "NAME: pts\nDIMENSION: 3\nNODE_COORD_SECTION\n1 0.0 0.0\n2 3 4\nshort line\n3 -1 2.5 extra\nEOF\n4 9 9\n";
    let layout = read_tsp_layout(&lines(text)).ok().unwrap();
    assert_eq!(layout.dimension, 3);
    match layout.section {
        TspSection::NodeCoords(c) => assert_eq!(
            c,
            vec![
                ("0.0".to_string(), "0.0".to_string()),
                ("3".to_string(), "4".to_string()),
                ("-1".to_string(), "2.5".to_string()),
            ]
        ),
        TspSection::EdgeWeights(_) => panic!("expected coordinates"),
    }
}

#[test]
fn last_dimension_line_decides() {
    let text = "DIMENSION: 4\nDIMENSIONS 5\nEDGE_WEIGHT_SECTION\n";
    assert_eq!(read_tsp_layout(&lines(text)).ok().unwrap().dimension, 5);
    let text = "DIMENSION: 4\nDIMENSION: x\nEDGE_WEIGHT_SECTION\n";
    assert!(matches!(read_tsp_layout(&lines(text)), Err(TspError::MissingDimension)));
    let text = "DIMENSION: 4\nDIMENSION\nEDGE_WEIGHT_SECTION\n";
    assert_eq!(read_tsp_layout(&lines(text)).ok().unwrap().dimension, 4);
}

#[test]
fn missing_dimension_is_an_error() {
    let text = "NAME: x\n DIMENSION: 3\nEDGE_WEIGHT_SECTION\n0\n";
    let err = read_tsp_layout(&lines(text)).err().unwrap();
    assert!(matches!(err, TspError::MissingDimension));
    assert_eq!(err.message(), "Could not find DIMENSION in the .tsp file");
}

#[test]
fn missing_section_is_an_error() {
    let err = read_tsp_layout(&lines("DIMENSION: 3\n1 2 3\n")).err().unwrap();
    assert!(matches!(err, TspError::NoSection));
    assert_eq!(
        err.message(),
        "No valid section (EDGE_WEIGHT_SECTION or NODE_COORD_SECTION) found in .tsp file"
    );
}

#[test]
fn edge_weight_matrix_fills_rows_in_order() {
    let m = edge_weight_matrix(&vec![0.0, 1.0, 2.0, 3.0, 4.0, 5.0, 6.0, 7.0, 8.0, 9.0], 3).ok().unwrap();
    assert_eq!(m, vec![vec![0.0, 1.0, 2.0], vec![3.0, 4.0, 5.0], vec![6.0, 7.0, 8.0]]);
    assert_eq!(edge_weight_matrix::<u8>(&vec![], 0).ok().unwrap(), Vec::<Vec<u8>>::new());
}

#[test]
fn too_few_edge_weights_is_an_error() {
    let err = edge_weight_matrix(&vec![1u32, 2, 3], 2).err().unwrap();
    assert!(matches!(err, TspError::NotEnoughNumbers));
    assert_eq!(err.message(), "Not enough numbers in EDGE_WEIGHT_SECTION");
    assert!(matches!(edge_weight_matrix(&vec![1u32], usize::MAX), Err(TspError::NotEnoughNumbers)));
}

#[test]
fn coordinate_count_must_match_dimension() {
    assert!(check_coordinate_count(&vec![(0.0, 0.0), (1.0, 1.0)], 2).is_ok());
    let err = check_coordinate_count(&vec![(0.0, 0.0)], 2).err().unwrap();
    assert!(matches!(err, TspError::CoordinateCountMismatch));
    assert_eq!(err.message(), "Number of coordinates does not match DIMENSION");
}

use aco::names::path_city_names;
use std::collections::HashMap;

#[test]
fn names_follow_the_path() {
    let mut names = HashMap::new();
    names.insert(0usize, "Oslo".to_string());
    names.insert(1usize, "Bergen".to_string());
    names.insert(2usize, "Tromso".to_string());
    assert_eq!(path_city_names(&vec![2, 0, 1, 2], &names), vec!["Tromso", "Oslo", "Bergen", "Tromso"]);
    assert!(path_city_names(&vec![], &names).is_empty());
}

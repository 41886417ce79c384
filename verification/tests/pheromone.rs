use aco::pheromone::deposit_plan;

fn plan(paths: &Vec<Vec<usize>>, limit: u32) -> Vec<(usize, usize, u32)> {
    deposit_plan(paths, limit).iter().map(|d| (d.from, d.to, d.weight)).collect()
}

#[test]
fn deposits_follow_each_path_in_rank_order() {
    let paths = vec![vec![0, 1, 2, 0], vec![2, 2, 1, 2]];
    assert_eq!(
        plan(&paths, 10),
        vec![(0, 1, 10), (1, 2, 10), (2, 0, 10), (2, 1, 9), (1, 2, 9)]
    );
}

#[test]
fn only_the_top_ranks_deposit() {
    let paths = vec![vec![0, 1], vec![1, 2], vec![2, 3], vec![3, 4]];
    assert_eq!(plan(&paths, 1), vec![(0, 1, 1), (1, 2, 0)]);
    assert_eq!(plan(&paths, 1), plan(&paths[..2].to_vec(), 1));
    assert_eq!(plan(&paths, 0), vec![(0, 1, 0)]);
}

#[test]
fn short_paths_deposit_nothing() {
    assert!(plan(&vec![vec![], vec![4], vec![3, 3]], 5).is_empty());
    assert!(plan(&vec![], 5).is_empty());
}

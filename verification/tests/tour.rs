use aco::tour::{city_indices, moves_per_tour, Tour};

#[test]
fn new_tour_starts_at_a_random_city_in_range() {
    for _ in 0..200 {
        let t = Tour::new(7);
        assert!(t.current_city < 7);
        assert_eq!(t.start_city, t.current_city);
        assert!(t.visited_cities.is_empty());
        assert!(t.path_taken.is_empty());
    }
    assert_eq!(Tour::new(1).current_city, 0);
}

#[test]
fn tour_steps_record_visits_and_path() {
    let mut t = Tour { current_city: 2, start_city: 2, visited_cities: vec![9], path_taken: vec![9] };
    t.begin();
    assert_eq!(t.visited_cities, vec![2]);
    assert!(t.path_taken.is_empty());
    t.advance(0);
    t.advance(3);
    t.advance(1);
    assert_eq!(t.current_city, 1);
    assert_eq!(t.visited_cities, vec![2, 0, 3, 1]);
    assert_eq!(t.path_taken, vec![2, 0, 3]);
    t.finish();
    assert_eq!(t.path_taken, vec![2, 0, 3, 2]);
    assert_eq!(t.start_city, 2);
}

#[test]
fn candidates_are_the_unvisited_cities() {
    let t = Tour { current_city: 1, start_city: 3, visited_cities: vec![3, 1, 9], path_taken: vec![] };
    assert_eq!(t.candidates(5), vec![true, false, true, false, true]);
    assert_eq!(t.candidates(0), Vec::<bool>::new());
}

#[test]
fn a_tour_through_candidates_visits_every_city_once() {
    let n = 9;
    let mut t = Tour::new(n);
    t.begin();
    for step in 0..moves_per_tour(n) {
        let c = t.candidates(n);
        let open: Vec<usize> = (0..n).filter(|&i| c[i]).collect();
        assert_eq!(open.len(), n - 1 - step);
        t.advance(open[(step * 5) % open.len()]);
    }
    t.finish();
    let mut seen = t.visited_cities.clone();
    seen.sort();
    assert_eq!(seen, city_indices(n));
    assert_eq!(t.path_taken.len(), n);
    assert_eq!(t.path_taken[0], t.start_city);
    assert_eq!(*t.path_taken.last().unwrap(), t.start_city);
    assert_eq!(&t.path_taken[..n - 1], &t.visited_cities[..n - 1]);
}

#[test]
fn city_indices_and_moves() {
    assert_eq!(city_indices(4), vec![0, 1, 2, 3]);
    assert_eq!(city_indices(0), Vec::<usize>::new());
    assert_eq!(moves_per_tour(5), 4);
    assert_eq!(moves_per_tour(1), 0);
}

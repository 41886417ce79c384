use aco::schedule::{pheromone_reset_due, reset_test_would_underflow, stagnation_step};

fn step(counter: usize, improved: bool, halved: bool, halved_if_rescaled: bool, n: usize) -> (usize, bool, bool) {
    let s = stagnation_step(counter, improved, halved, halved_if_rescaled, n);
    (s.counter, s.rescale, s.reset)
}

#[test]
fn improvement_resets_the_count() {
    assert_eq!(step(3, true, true, true, 100), (0, false, false));
    assert_eq!(step(0, true, true, true, 5), (0, false, false));
}

#[test]
fn rescale_after_a_tenth_of_the_iterations() {
    let mut counter = 0;
    for k in 1..10 {
        let s = step(counter, false, false, false, 100);
        assert_eq!(s, (k, false, false));
        counter = s.0;
    }
    assert_eq!(step(counter, false, false, false, 100), (0, true, false));
}

#[test]
fn few_iterations_rescale_every_time() {
    assert_eq!(step(0, false, false, false, 5), (0, true, false));
    assert_eq!(step(0, false, true, false, 19), (0, true, false));
}

#[test]
fn pheromones_reset_once_alpha_has_halved_and_the_count_is_due() {
    assert_eq!(step(7, false, true, false, 100), (8, false, false));
    assert_eq!(step(8, false, true, false, 100), (9, false, true));
    assert_eq!(step(8, false, false, true, 100), (9, false, false));
    assert_eq!(step(9, false, false, true, 100), (0, true, false));
    assert_eq!(step(0, false, false, true, 19), (0, true, true));
    assert_eq!(step(0, false, true, false, 19), (0, true, false));
}

#[test]
fn reset_test_underflows_with_few_iterations() {
    assert!(reset_test_would_underflow(0, false, false, true, 9));
    assert!(!reset_test_would_underflow(0, false, true, false, 9));
    assert!(!reset_test_would_underflow(0, true, true, true, 9));
    assert!(!reset_test_would_underflow(0, false, true, true, 10));
}

#[test]
fn pheromone_reset_threshold() {
    assert!(pheromone_reset_due(9, 100));
    assert!(!pheromone_reset_due(8, 100));
    assert!(pheromone_reset_due(0, 19));
    assert!(!pheromone_reset_due(0, 20));
}

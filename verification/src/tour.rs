//! The bookkeeping of an ant's tour: where it started, where it is, which
//! cities it has visited and the path it has taken.
//!
//! A tour is built in steps: `begin` puts the ant at its current city,
//! `candidates` tells which cities it may move to (those not yet visited),
//! `advance` moves it to the city that was chosen, and `finish` closes the
//! path back to the start. How the next city is chosen (by pheromone and
//! distance, at random) is up to the caller.

use vstd::prelude::*;
use rand::Rng;

verus! {

/// `rand::thread_rng().gen_range(0..n)`: a number drawn at random from
/// `0..n`. Only that it lies in `0..n` is stated; which one comes out is
/// left open, as it rests on chance. `gen_range` panics on an empty range,
/// hence the requirement.
#[verifier::external_body]
fn random_below(n: usize) -> (r: usize)
    requires
        n > 0,
    ensures
        r < n,
{
    rand::thread_rng().gen_range(0..n)
}

/// The tour of one ant.
pub struct Tour {
    pub current_city: usize,
    pub start_city: usize,
    pub visited_cities: Vec<usize>,
    pub path_taken: Vec<usize>,
}

/// The cities visited after starting at `start` and moving to each of
/// `moves` in turn.
pub open spec fn visited_after(start: usize, moves: Seq<usize>) -> Seq<usize> {
    seq![start] + moves
}

/// The path taken after starting at `start`, moving to each of `moves` in
/// turn and closing the tour: the city left at each move, then `start`.
pub open spec fn path_after(start: usize, moves: Seq<usize>) -> Seq<usize> {
    visited_after(start, moves).take(moves.len() as int) + seq![start]
}

/// Each move goes to a city below `n` that had not been visited before it.
pub open spec fn moves_to_new_cities(start: usize, moves: Seq<usize>, n: nat) -> bool {
    forall|k: int|
        0 <= k < moves.len() ==> #[trigger] moves[k] < n && !visited_after(start, moves.take(k)).contains(
            moves[k],
        )
}

impl Tour {
    /// A tour of `num_cities` cities that starts at a city drawn at random.
    pub fn new(num_cities: usize) -> (t: Tour)
        requires
            num_cities > 0,
        ensures
            t.current_city < num_cities,
            t.start_city == t.current_city,
            t.visited_cities@ == Seq::<usize>::empty(),
            t.path_taken@ == Seq::<usize>::empty(),
    {
        let current_city = random_below(num_cities);
        Tour {
            current_city,
            start_city: current_city,
            visited_cities: Vec::new(),
            path_taken: Vec::new(),
        }
    }

    /// Starts a new path at the current city, which becomes the only
    /// visited city.
    pub fn begin(&mut self)
        ensures
            final(self).current_city == old(self).current_city,
            final(self).start_city == old(self).start_city,
            final(self).visited_cities@ == seq![old(self).current_city],
            final(self).path_taken@ == Seq::<usize>::empty(),
    {
        self.visited_cities.clear();
        self.path_taken.clear();
        self.visited_cities.push(self.current_city);
    }

    /// For each city below `num_cities`, whether it has not been visited
    /// yet.
    pub fn candidates(&self, num_cities: usize) -> (c: Vec<bool>)
        ensures
            c@.len() == num_cities,
            forall|i: int| 0 <= i < num_cities ==> #[trigger] c@[i] == !self.visited_cities@.contains(i as usize),
    {
        let mut c: Vec<bool> = Vec::new();
        let mut i: usize = 0;
        while i < num_cities
            invariant
                i <= num_cities,
                c@.len() == i,
                forall|k: int| 0 <= k < i ==> #[trigger] c@[k] == true,
            decreases num_cities - i,
        {
            c.push(true);
            i = i + 1;
        }
        let mut j: usize = 0;
        while j < self.visited_cities.len()
            invariant
                j <= self.visited_cities@.len(),
                c@.len() == num_cities,
                forall|k: int|
                    0 <= k < num_cities ==> #[trigger] c@[k] == !self.visited_cities@.take(j as int).contains(
                        k as usize,
                    ),
            decreases self.visited_cities@.len() - j,
        {
            let v = self.visited_cities[j];
            let ghost before = self.visited_cities@.take(j as int);
            assert(self.visited_cities@.take(j + 1) == before.push(v));
            if v < num_cities {
                c.set(v, false);
            }
            assert forall|k: int| 0 <= k < num_cities implies #[trigger] c@[k]
                == !self.visited_cities@.take(j + 1).contains(k as usize) by {
                if k == v {
                    assert(self.visited_cities@.take(j + 1)[j as int] == v);
                } else {
                    assert(self.visited_cities@.take(j + 1).contains(k as usize) ==> before.contains(k as usize)) by {
                        if self.visited_cities@.take(j + 1).contains(k as usize) {
                            let x = choose|x: int| 0 <= x < j + 1 && #[trigger] self.visited_cities@.take(j + 1)[x] == k as usize;
                            assert(before[x] == k as usize);
                        }
                    }
                    assert(before.contains(k as usize) ==> self.visited_cities@.take(j + 1).contains(k as usize)) by {
                        if before.contains(k as usize) {
                            let x = choose|x: int| 0 <= x < j && #[trigger] before[x] == k as usize;
                            assert(self.visited_cities@.take(j + 1)[x] == k as usize);
                        }
                    }
                }
            }
            j = j + 1;
        }
        assert(self.visited_cities@.take(self.visited_cities@.len() as int) == self.visited_cities@);
        c
    }

    /// Moves to `next`: the city left is added to the path, `next` becomes
    /// the current city and is added to the visited cities.
    pub fn advance(&mut self, next: usize)
        ensures
            final(self).current_city == next,
            final(self).start_city == old(self).start_city,
            final(self).visited_cities@ == old(self).visited_cities@.push(next),
            final(self).path_taken@ == old(self).path_taken@.push(old(self).current_city),
    {
        self.path_taken.push(self.current_city);
        self.current_city = next;
        self.visited_cities.push(next);
    }

    /// Closes the path back at the start city.
    pub fn finish(&mut self)
        ensures
            final(self).current_city == old(self).current_city,
            final(self).start_city == old(self).start_city,
            final(self).visited_cities@ == old(self).visited_cities@,
            final(self).path_taken@ == old(self).path_taken@.push(old(self).start_city),
    {
        self.path_taken.push(self.start_city);
    }
}

/// The cities of a model of `num_cities` cities, numbered from 0.
pub fn city_indices(num_cities: usize) -> (cities: Vec<usize>)
    ensures
        cities@.len() == num_cities,
        forall|i: int| 0 <= i < num_cities ==> #[trigger] cities@[i] == i,
{
    let mut cities: Vec<usize> = Vec::new();
    let mut i: usize = 0;
    while i < num_cities
        invariant
            i <= num_cities,
            cities@.len() == i,
            forall|k: int| 0 <= k < i ==> #[trigger] cities@[k] == k,
        decreases num_cities - i,
    {
        cities.push(i);
        i = i + 1;
    }
    cities
}

/// The number of moves in a tour of `num_cities` cities: one to each city
/// but the first.
pub fn moves_per_tour(num_cities: usize) -> (m: usize)
    requires
        num_cities > 0,
    ensures
        m == num_cities - 1,
{
    num_cities - 1
}

/// The visited cities, path and current city after `advance` has been called
/// with each of `moves` in turn, from `visited`, `path` and `current`.
pub open spec fn after_moves(visited: Seq<usize>, path: Seq<usize>, current: usize, moves: Seq<usize>) -> (
    Seq<usize>,
    Seq<usize>,
    usize,
)
    decreases moves.len(),
{
    if moves.len() == 0 {
        (visited, path, current)
    } else {
        let (v, p, c) = after_moves(visited, path, current, moves.drop_last());
        (v.push(moves.last()), p.push(c), moves.last())
    }
}

/// A tour begun at `start` and advanced by `moves` has visited `start` and
/// then each move in order, and its path, once finished, is the city left at
/// each move followed by `start`: it ends where it began.
pub proof fn lemma_tour_shape(start: usize, moves: Seq<usize>)
    ensures
        after_moves(seq![start], seq![], start, moves).0 == visited_after(start, moves),
        after_moves(seq![start], seq![], start, moves).1.push(start) == path_after(start, moves),
        after_moves(seq![start], seq![], start, moves).2 == visited_after(start, moves).last(),
        path_after(start, moves).len() == moves.len() + 1,
        path_after(start, moves)[0] == start,
        path_after(start, moves).last() == start,
    decreases moves.len(),
{
    if moves.len() > 0 {
        lemma_tour_shape(start, moves.drop_last());
        assert(visited_after(start, moves.drop_last()).push(moves.last()) =~= visited_after(
            start,
            moves,
        ));
        assert(visited_after(start, moves.drop_last()).take(moves.len() - 1).push(
            visited_after(start, moves.drop_last()).last(),
        ) =~= visited_after(start, moves).take(moves.len() as int));
        let prev = after_moves(seq![start], seq![], start, moves.drop_last());
        assert(prev.1 =~= visited_after(start, moves.drop_last()).take(moves.len() - 1)) by {
            assert(prev.1.push(start) == visited_after(start, moves.drop_last()).take(
                moves.len() - 1,
            ) + seq![start]);
            assert(prev.1 =~= prev.1.push(start).drop_last());
        }
        assert(after_moves(seq![start], seq![], start, moves).1.push(start) =~= path_after(
            start,
            moves,
        ));
    } else {
        assert(visited_after(start, moves) =~= seq![start]);
        assert(path_after(start, moves) =~= seq![start]);
    }
}

/// Moving to a city that `candidates` offers (a city below `n` not yet
/// visited) keeps every move of the tour a move to a new city.
pub proof fn lemma_candidate_move(start: usize, moves: Seq<usize>, n: nat, next: usize)
    requires
        moves_to_new_cities(start, moves, n),
        next < n,
        !visited_after(start, moves).contains(next),
    ensures
        moves_to_new_cities(start, moves.push(next), n),
{
    let m2 = moves.push(next);
    assert forall|k: int| 0 <= k < m2.len() implies #[trigger] m2[k] < n && !visited_after(
        start,
        m2.take(k),
    ).contains(m2[k]) by {
        if k < moves.len() {
            assert(m2.take(k) == moves.take(k));
            assert(m2[k] == moves[k]);
        } else {
            assert(m2.take(k) == moves);
        }
    }
}

/// When every move goes to a city not visited before, the visited cities
/// hold no city twice.
proof fn lemma_no_revisit(start: usize, moves: Seq<usize>, n: nat)
    requires
        moves_to_new_cities(start, moves, n),
    ensures
        visited_after(start, moves).no_duplicates(),
    decreases moves.len(),
{
    if moves.len() > 0 {
        let m = moves.drop_last();
        assert forall|k: int| 0 <= k < m.len() implies #[trigger] m[k] < n
            && !visited_after(start, m.take(k)).contains(m[k]) by {
            assert(m.take(k) == moves.take(k));
            assert(moves[k] == m[k]);
        }
        lemma_no_revisit(start, m, n);
        let v = visited_after(start, moves);
        let last = moves.len() - 1;
        assert(moves.take(last) == m);
        assert(!visited_after(start, m).contains(moves[last]));
        assert forall|i: int, j: int| 0 <= i < v.len() && 0 <= j < v.len() && i != j implies v[i]
            != v[j] by {
            if i < v.len() - 1 && j < v.len() - 1 {
                assert(v[i] == visited_after(start, m)[i]);
                assert(v[j] == visited_after(start, m)[j]);
            } else if i == v.len() - 1 {
                assert(v[j] == visited_after(start, m)[j]);
            } else {
                assert(v[i] == visited_after(start, m)[i]);
            }
        }
    }
}

/// A tour of `n` cities that starts below `n` and moves `n - 1` times, each
/// time to a city not yet visited, visits every city exactly once.
pub proof fn lemma_tour_visits_every_city(start: usize, moves: Seq<usize>, n: nat)
    requires
        start < n,
        moves.len() + 1 == n,
        moves_to_new_cities(start, moves, n),
    ensures
        visited_after(start, moves).len() == n,
        visited_after(start, moves).no_duplicates(),
        forall|c: usize| c < n ==> visited_after(start, moves).contains(c),
{
    let v = visited_after(start, moves);
    lemma_no_revisit(start, moves, n);
    assert forall|i: int| 0 <= i < v.len() implies #[trigger] v[i] < n by {
        if i > 0 {
            assert(v[i] == moves[i - 1]);
        }
    }
    let vi = v.map_values(|c: usize| c as int);
    assert forall|i: int, j: int| 0 <= i < vi.len() && 0 <= j < vi.len() && i != j implies vi[i]
        != vi[j] by {
        assert(v[i] != v[j]);
    }
    assert(vi.no_duplicates());
    vi.unique_seq_to_set();
    vstd::set_lib::lemma_int_range(0, n as int);
    let range = vstd::set_lib::set_int_range(0, n as int);
    assert(vi.to_set().subset_of(range)) by {
        assert forall|x: int| vi.to_set().contains(x) implies range.contains(x) by {
            let i = choose|i: int| 0 <= i < vi.len() && vi[i] == x;
            assert(v[i] < n);
        }
    }
    assert forall|c: usize| c < n implies v.contains(c) by {
        if !vi.to_set().contains(c as int) {
            vi.to_set().lemma_subset_not_in_lt(range, c as int);
        }
        assert(vi.contains(c as int));
        let i = choose|i: int| 0 <= i < vi.len() && vi[i] == c as int;
        assert(v[i] == c);
    }
}

} // verus!

//! A square table of distances between cities, indexed by city number.
//!
//! The table is generic in the type of a distance: the solver stores
//! floating-point distances in it, the logic here only places and reads them.

use vstd::prelude::*;

verus! {

/// The rows of `m`, each taken by its view.
pub open spec fn rows_view<T>(m: Seq<Vec<T>>) -> Seq<Seq<T>> {
    m.map_values(|r: Vec<T>| r@)
}

/// `m` with the entry in row `i`, column `j` replaced by `d`.
pub open spec fn set_entry<T>(m: Seq<Seq<T>>, i: int, j: int, d: T) -> Seq<Seq<T>> {
    m.update(i, m[i].update(j, d))
}

/// Row `i` of `m` has an entry in column `j`.
pub open spec fn has_entry<T>(m: Seq<Seq<T>>, i: int, j: int) -> bool {
    0 <= i < m.len() && 0 <= j < m[i].len()
}

/// `m` has `n` rows of `n` entries each.
pub open spec fn is_square<T>(m: Seq<Seq<T>>, n: int) -> bool {
    m.len() == n && forall|i: int| 0 <= i < n ==> #[trigger] m[i].len() == n
}

/// `m` is square and its entry `(i, j)` is its entry `(j, i)`.
pub open spec fn is_symmetric<T>(m: Seq<Seq<T>>) -> bool {
    &&& is_square(m, m.len() as int)
    &&& forall|i: int, j: int|
        0 <= i < m.len() && 0 <= j < m.len() ==> #[trigger] m[i][j] == #[trigger] m[j][i]
}

/// Distances between cities: entry `(from, to)` is the distance from city
/// `from` to city `to`.
pub struct DistanceMatrix<T> {
    distances: Vec<Vec<T>>,
}

impl<T> View for DistanceMatrix<T> {
    type V = Seq<Seq<T>>;

    closed spec fn view(&self) -> Seq<Seq<T>> {
        rows_view(self.distances@)
    }
}

impl<T: Copy> DistanceMatrix<T> {
    /// A table for `num_cities` cities with every entry `zero`.
    pub fn new(num_cities: usize, zero: T) -> (m: Self)
        ensures
            is_square(m@, num_cities as int),
            forall|i: int, j: int|
                0 <= i < num_cities && 0 <= j < num_cities ==> #[trigger] m@[i][j] == zero,
    {
        let mut distances: Vec<Vec<T>> = Vec::new();
        let mut i: usize = 0;
        while i < num_cities
            invariant
                i <= num_cities,
                distances@.len() == i,
                forall|k: int| 0 <= k < i ==> #[trigger] distances@[k]@.len() == num_cities,
                forall|k: int, j: int|
                    0 <= k < i && 0 <= j < num_cities ==> #[trigger] distances@[k]@[j] == zero,
            decreases num_cities - i,
        {
            let mut row: Vec<T> = Vec::new();
            let mut j: usize = 0;
            while j < num_cities
                invariant
                    j <= num_cities,
                    row@.len() == j,
                    forall|k: int| 0 <= k < j ==> #[trigger] row@[k] == zero,
                decreases num_cities - j,
            {
                row.push(zero);
                j = j + 1;
            }
            distances.push(row);
            i = i + 1;
        }
        let m = DistanceMatrix { distances };
        assert(m@.len() == num_cities);
        m
    }

    /// A table whose rows are `distances`.
    pub fn from_vec(distances: Vec<Vec<T>>) -> (m: Self)
        ensures
            m@ == rows_view(distances@),
    {
        DistanceMatrix { distances }
    }

    /// The distance from city `from` to city `to`.
    pub fn get_distance(&self, from: usize, to: usize) -> (d: T)
        requires
            has_entry(self@, from as int, to as int),
        ensures
            d == self@[from as int][to as int],
    {
        self.distances[from][to]
    }

    /// Sets the distance between `from` and `to`, in both directions: entry
    /// `(from, to)` is set first, then entry `(to, from)`.
    pub fn set_distance(&mut self, from: usize, to: usize, distance: T)
        requires
            has_entry(old(self)@, from as int, to as int),
            has_entry(old(self)@, to as int, from as int),
        ensures
            final(self)@ == set_both(old(self)@, from as int, to as int, distance),
    {
        self.distances[from][to] = distance;
        self.distances[to][from] = distance;
        assert(self@ =~= set_entry(
            set_entry(old(self)@, from as int, to as int, distance),
            to as int,
            from as int,
            distance,
        ));
    }

    /// The number of rows, that is of cities.
    pub fn len(&self) -> (n: usize)
        ensures
            n == self@.len(),
    {
        self.distances.len()
    }

    /// The rows of the table.
    pub fn as_vec(&self) -> (v: &Vec<Vec<T>>)
        ensures
            rows_view(v@) == self@,
    {
        &self.distances
    }
}

/// The table that `DistanceMatrix::set_distance(from, to, d)` leaves.
pub open spec fn set_both<T>(m: Seq<Seq<T>>, from: int, to: int, d: T) -> Seq<Seq<T>> {
    set_entry(set_entry(m, from, to, d), to, from, d)
}

/// After the distance between `from` and `to` is set to `d`, it reads back as
/// `d` in both directions, every other entry is what it was, and no row
/// changes its length.
pub proof fn lemma_set_distance_reads_back<T>(m: Seq<Seq<T>>, from: int, to: int, d: T)
    requires
        has_entry(m, from, to),
        has_entry(m, to, from),
    ensures
        set_both(m, from, to, d)[from][to] == d,
        set_both(m, from, to, d)[to][from] == d,
        set_both(m, from, to, d).len() == m.len(),
        forall|i: int| 0 <= i < m.len() ==> #[trigger] set_both(m, from, to, d)[i].len() == m[i].len(),
        forall|i: int, j: int|
            has_entry(m, i, j) && !(i == from && j == to) && !(i == to && j == from)
                ==> #[trigger] set_both(m, from, to, d)[i][j] == m[i][j],
{
}

/// Setting a distance in both directions keeps a symmetric table symmetric.
pub proof fn lemma_set_distance_keeps_symmetry<T>(m: Seq<Seq<T>>, from: int, to: int, d: T)
    requires
        is_symmetric(m),
        0 <= from < m.len(),
        0 <= to < m.len(),
    ensures
        is_symmetric(set_both(m, from, to, d)),
{
    let m2 = set_both(m, from, to, d);
    lemma_set_distance_reads_back(m, from, to, d);
    assert forall|i: int, j: int| 0 <= i < m2.len() && 0 <= j < m2.len() implies #[trigger] m2[i][j]
        == #[trigger] m2[j][i] by {
        assert(has_entry(m, i, j));
        assert(has_entry(m, j, i));
    }
}

} // verus!

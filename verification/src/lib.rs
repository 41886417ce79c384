//! Building blocks of an ant colony optimisation solver for the travelling
//! salesman problem: distance matrices, the readers of matrix and TSPLIB
//! files, the bookkeeping of an ant's tour, the pheromone deposit plan and
//! the schedule that rescales the search when it stagnates.

pub mod text;
pub mod decimal;
pub mod matrix;
pub mod tsp;
pub mod matrix_file;
pub mod tour;
pub mod pheromone;
pub mod schedule;
pub mod names;

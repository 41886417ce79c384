# aco

An ant colony optimisation solver for the travelling salesman problem.

`src/` is the verified library, in Verus:

- `text`, `decimal`: white space, fields, trimming and keyword search on
  lines, and reading a `usize` as `str::parse` does.
- `matrix`: `DistanceMatrix`, a table of distances that is set in both
  directions at once.
- `matrix_file`, `tsp`: the readers of a plain distance-matrix file and of a
  TSPLIB `.tsp` file (`DIMENSION`, `EDGE_WEIGHT_SECTION`,
  `NODE_COORD_SECTION`).
- `tour`: the bookkeeping of an ant's tour (start, visited cities, path).
- `pheromone`: which edges the best-ranked ants deposit pheromone on.
- `schedule`: when alpha and beta are rescaled and pheromones reset.
- `names`: the city names of a path.

`app/` is the program around it: reading files, the floating-point parts of
the search (choosing moves by weighted draws, evaporation, deposits,
distances from coordinates) and printing the results.

# solver

A verified library for a small CAD equation solver, written in Verus.

- `src/matrix`: simple (dense) and sparse (compressed rows) matrices behind one
  `Matrix` trait, positions, rectangles, errors, the product of two matrices, and
  laws relating reads to writes.
- `src/equation`: operators, their precedence and a verified comparison by it,
  terms over named variables (which variables a term reads), the grammar of equation text
  as spec functions, a parser proved equal to it, laws on how operator chains
  become trees, and the value of exponent literals.
- `src/solver.rs`: equation identifiers and their generator, the table of
  equations kept in identifier order, and the dimension status of a system.
- `src/environment.rs`: values by variable name, and the rule that makes a
  variable name (trimmed, never blank).
- `src/graph.rs`: the walk that finds the closed loops of a sketch's graph of
  points, with the law that every loop it reports is closed.
- `src/vector.rs`: how a vector becomes a one-column or one-row matrix.
- `src/ui`: the state machines and attribute values behind buttons, accordions,
  select boxes (including one step of the select box widget), icons and perspectives.
- `app/`: floating-point evaluation, elimination, LU decomposition and the
  Newton-Raphson solver, built on the library.

Every function in `src/` carries a contract. Verus proves all of them except two
small wrappers of std, whose contracts it takes as given: `str::trim` (in
`environment.rs`) and the decimal text of a `usize` (in `matrix/error.rs`).

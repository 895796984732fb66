use vstd::prelude::*;

pub mod environment;
pub mod epsilon;
pub mod graph;
pub mod equation;
pub mod immutable;
pub mod matrix;
pub mod solver;
pub mod ui;
pub mod vector;

verus! {

} // verus!

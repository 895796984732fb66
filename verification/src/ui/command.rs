use vstd::prelude::*;

verus! {

/// Asks to create a sketch on the object selected in the CAD view.
#[derive(Debug)]
pub struct CreateSketchOnSelectedCommand {}

/// Asks to create a body.
#[derive(Debug)]
pub struct CreateBodyCommand {}

/// Asks to stop creating the current geometry.
#[derive(Debug)]
pub struct CancelCurrentGeometryCreationCommand {}

} // verus!

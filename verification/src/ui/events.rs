use vstd::prelude::*;

use crate::immutable::Im;

verus! {

/// Cancels the creation of a sketch; ignored when the sketch is already
/// created or the creation already cancelled.
#[derive(Debug)]
pub struct CancelCreateSketchCommand {}

/// Asks to create a body with a name.
#[derive(Debug)]
pub struct CreateBodyCommand {
    pub name: Im<String>,
}

/// The canvas took a new size.
#[derive(Debug)]
pub struct CanvasResizeIntent {
    pub width: Im<u32>,
    pub height: Im<u32>,
}

/// The mouse moved over the canvas: by how much, and where it ended.
#[derive(Debug)]
pub struct MouseMovementIntent {
    pub delta_x: Im<i32>,
    pub delta_y: Im<i32>,
    pub client_x: Im<u32>,
    pub client_y: Im<u32>,
}

} // verus!

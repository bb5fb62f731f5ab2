use vstd::prelude::*;

verus! {

/// A point or offset on the pixel grid, in whole pixels.
#[derive(Clone, Default, Copy)]
pub struct Vector2i {
    pub x: i32,
    pub y: i32,
}

} // verus!

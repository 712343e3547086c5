//! Axis-aligned bounding boxes.
use crate::number::Number;
use vstd::prelude::*;

verus! {

/// An axis-aligned bounding box defined by min/max x and y coordinates.
#[derive(Debug, PartialEq)]
pub struct BoundingBox {
    /// Minimum x coordinate (west boundary).
    pub x_min: Number,
    /// Minimum y coordinate (south boundary).
    pub y_min: Number,
    /// Maximum x coordinate (east boundary).
    pub x_max: Number,
    /// Maximum y coordinate (north boundary).
    pub y_max: Number,
}

impl Clone for BoundingBox {
    fn clone(&self) -> (r: Self)
        ensures
            r == *self,
    {
        BoundingBox {
            x_min: self.x_min.clone(),
            y_min: self.y_min.clone(),
            x_max: self.x_max.clone(),
            y_max: self.y_max.clone(),
        }
    }
}

} // verus!

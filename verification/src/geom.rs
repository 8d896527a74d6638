//! Fixed-point 2-D and 3-D points. One world unit is `MILLI` steps, so a
//! coordinate of 2000 is two world units. All core geometry is exact
//! integer arithmetic over these points.

use vstd::prelude::*;

verus! {

/// Number of coordinate steps per world unit.
pub const MILLI: i64 = 1000;

/// Coordinate magnitude accepted by the geometric predicates: keeps every
/// intermediate product within `i128`.
pub const POS_LIMIT: i64 = 0x1000_0000_0000_0000;

#[derive(Clone, Copy, PartialEq, Eq, Structural, Debug)]
pub struct Point2 {
    pub x: i64,
    pub y: i64,
}

#[derive(Clone, Copy, PartialEq, Eq, Structural, Debug)]
pub struct Point3 {
    pub x: i64,
    pub y: i64,
    pub z: i64,
}

impl Point2 {
    pub open spec fn bounded(self) -> bool {
        -POS_LIMIT <= self.x <= POS_LIMIT && -POS_LIMIT <= self.y <= POS_LIMIT
    }

    /// Lifts a 2-D point to 3-D at height zero, for renderer-facing meshes.
    pub fn extend(self) -> (r: Point3)
        ensures
            r == (Point3 { x: self.x, y: self.y, z: 0 }),
    {
        Point3 { x: self.x, y: self.y, z: 0 }
    }
}

impl Point3 {
    pub open spec fn bounded(self) -> bool {
        &&& -POS_LIMIT <= self.x <= POS_LIMIT
        &&& -POS_LIMIT <= self.y <= POS_LIMIT
        &&& -POS_LIMIT <= self.z <= POS_LIMIT
    }

    /// Drops the height coordinate: the planar part of a mesh vertex.
    pub fn xy(self) -> (r: Point2)
        ensures
            r == (Point2 { x: self.x, y: self.y }),
    {
        Point2 { x: self.x, y: self.y }
    }
}

} // verus!

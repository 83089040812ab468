//! Conversion between the coordinates of the plane and those of a rectangle.
use vstd::prelude::*;
use crate::geometry::{Domain, Point};

verus! {

/// The position of `point` as seen from the upper left corner of `plane`:
/// how far it lies to the right of the left edge, and how far below the top
/// edge.
pub open spec fn upper_left_origin(point: Point, plane: Domain) -> (int, int) {
    (point.x - plane.left, plane.top - point.y)
}

/// Converts `point` from the coordinates of the plane, whose vertical axis
/// points up, to coordinates whose origin is the upper left corner of `plane`
/// and whose vertical axis points down. A point of `plane` gets coordinates
/// between zero and the width and height of `plane`.
pub fn convert_to_upper_left_origin(point: &Point, plane: &Domain) -> (converted: (i64, i64))
    ensures
        (converted.0 as int, converted.1 as int) == upper_left_origin(*point, *plane),
{
    (point.x as i64 - plane.left as i64, plane.top as i64 - point.y as i64)
}

} // verus!

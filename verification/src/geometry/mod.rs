//! Points and axis-aligned rectangles with integer coordinates.
//!
//! One unit is whatever the caller makes of it: a sketch that works in
//! fractions of a pixel scales its coordinates before it hands them over.
use vstd::prelude::*;

pub mod coordinates;

verus! {

/// A point of the plane, or a displacement between two points.
#[derive(Clone, Copy, Debug, PartialEq, Eq, Structural)]
pub struct Point {
    pub x: i32,
    pub y: i32,
}

impl Point {
    /// The square of the Euclidean distance between two points.
    pub open spec fn spec_distance_squared(self, other: Point) -> int {
        (self.x - other.x) * (self.x - other.x) + (self.y - other.y) * (self.y - other.y)
    }

    /// The square of the Euclidean distance to `other`. The squares of all
    /// distances between 32-bit points fit in 128 bits.
    pub fn distance_squared(&self, other: &Point) -> (d: u128)
        ensures
            d == self.spec_distance_squared(*other),
    {
        let dx: i128 = self.x as i128 - other.x as i128;
        let dy: i128 = self.y as i128 - other.y as i128;
        assert(0 <= dx * dx <= 0x1_0000_0000_0000_0000) by (nonlinear_arith)
            requires
                -0x1_0000_0000 <= dx <= 0x1_0000_0000,
        ;
        assert(0 <= dy * dy <= 0x1_0000_0000_0000_0000) by (nonlinear_arith)
            requires
                -0x1_0000_0000 <= dy <= 0x1_0000_0000,
        ;
        (dx * dx + dy * dy) as u128
    }

    /// Whether `other` is at least `r` away, compared by squares.
    pub open spec fn spec_is_apart(self, other: Point, r: u32) -> bool {
        self.spec_distance_squared(other) >= r * r
    }

    /// Whether the Euclidean distance to `other` is at least `r`.
    pub fn is_apart(&self, other: &Point, r: u32) -> (apart: bool)
        ensures
            apart == self.spec_is_apart(*other, r),
    {
        let rr: u64 = r as u64;
        assert(0 <= rr * rr <= 0xffff_ffff_0000_0000) by (nonlinear_arith)
            requires
                0 <= rr <= 0xffff_ffff,
        ;
        self.distance_squared(other) >= (rr * rr) as u128
    }

    /// The square of the length of the displacement.
    pub open spec fn spec_length_squared(self) -> int {
        self.x * self.x + self.y * self.y
    }

    /// Whether the displacement is at least `r` long and less than twice `r`,
    /// compared by squares.
    pub open spec fn spec_in_annulus(self, r: int) -> bool {
        r * r <= self.spec_length_squared() < 4 * r * r
    }

    /// Whether the displacement is at least `r` long and less than twice `r`.
    pub fn in_annulus(&self, r: u32) -> (inside: bool)
        ensures
            inside == self.spec_in_annulus(r as int),
    {
        let x: i128 = self.x as i128;
        let y: i128 = self.y as i128;
        let rr: i128 = r as i128;
        assert(0 <= x * x <= 0x4000_0000_0000_0000) by (nonlinear_arith)
            requires
                -0x8000_0000 <= x <= 0x8000_0000,
        ;
        assert(0 <= y * y <= 0x4000_0000_0000_0000) by (nonlinear_arith)
            requires
                -0x8000_0000 <= y <= 0x8000_0000,
        ;
        assert(0 <= rr * rr <= 0xffff_ffff_0000_0000) by (nonlinear_arith)
            requires
                0 <= rr <= 0xffff_ffff,
        ;
        assert(4 * r * r == 4 * (rr * rr)) by (nonlinear_arith)
            requires
                rr == r,
        ;
        let length: i128 = x * x + y * y;
        rr * rr <= length && length < 4 * (rr * rr)
    }

    /// The point reached from `self` by the displacement `offset`, as a pair
    /// of unbounded integers.
    pub open spec fn spec_moved_by(self, offset: Point) -> (int, int) {
        (self.x + offset.x, self.y + offset.y)
    }

    /// The point reached from `self` by the displacement `offset`, or `None`
    /// where one of its coordinates leaves the 32-bit range.
    pub fn moved_by(&self, offset: &Point) -> (moved: Option<Point>)
        ensures
            match moved {
                Some(p) => (p.x as int, p.y as int) == self.spec_moved_by(*offset),
                None => {
                    let (x, y) = self.spec_moved_by(*offset);
                    x < i32::MIN || x > i32::MAX || y < i32::MIN || y > i32::MAX
                },
            },
    {
        let x: i64 = self.x as i64 + offset.x as i64;
        let y: i64 = self.y as i64 + offset.y as i64;
        if x < i32::MIN as i64 || x > i32::MAX as i64 || y < i32::MIN as i64 || y > i32::MAX as i64 {
            None
        } else {
            Some(Point { x: x as i32, y: y as i32 })
        }
    }
}

/// An axis-aligned rectangle, edges included. The vertical axis points up:
/// `bottom` is the smallest `y` of the rectangle and `top` the largest.
#[derive(Clone, Copy, Debug, PartialEq, Eq, Structural)]
pub struct Domain {
    pub left: i32,
    pub right: i32,
    pub bottom: i32,
    pub top: i32,
}

impl Domain {
    /// A rectangle has an interior when `left < right` and `bottom < top`.
    pub open spec fn well_formed(self) -> bool {
        self.left < self.right && self.bottom < self.top
    }

    /// Whether the rectangle has an interior.
    pub fn is_well_formed(&self) -> (ok: bool)
        ensures
            ok == self.well_formed(),
    {
        self.left < self.right && self.bottom < self.top
    }

    /// The rectangle between two opposite corners, given in any order.
    pub fn from_corners(a: Point, b: Point) -> (domain: Domain)
        ensures
            domain.left == if a.x <= b.x { a.x } else { b.x },
            domain.right == if a.x <= b.x { b.x } else { a.x },
            domain.bottom == if a.y <= b.y { a.y } else { b.y },
            domain.top == if a.y <= b.y { b.y } else { a.y },
    {
        Domain {
            left: if a.x <= b.x { a.x } else { b.x },
            right: if a.x <= b.x { b.x } else { a.x },
            bottom: if a.y <= b.y { a.y } else { b.y },
            top: if a.y <= b.y { b.y } else { a.y },
        }
    }

    pub open spec fn spec_w(self) -> int {
        self.right - self.left
    }

    pub open spec fn spec_h(self) -> int {
        self.top - self.bottom
    }

    /// The area, width times height.
    pub open spec fn spec_area(self) -> int {
        self.spec_w() * self.spec_h()
    }

    /// The width, `right - left`.
    pub fn w(&self) -> (w: i64)
        ensures
            w == self.spec_w(),
    {
        self.right as i64 - self.left as i64
    }

    /// The height, `top - bottom`.
    pub fn h(&self) -> (h: i64)
        ensures
            h == self.spec_h(),
    {
        self.top as i64 - self.bottom as i64
    }

    /// Whether the position `(x, y)` lies in the rectangle or on its edge.
    pub open spec fn contains_xy(self, x: int, y: int) -> bool {
        self.left <= x <= self.right && self.bottom <= y <= self.top
    }

    /// Whether `point` lies in the rectangle or on its edge.
    pub open spec fn spec_contains(self, point: Point) -> bool {
        self.contains_xy(point.x as int, point.y as int)
    }

    /// Whether `point` lies in the rectangle or on its edge.
    pub fn contains(&self, point: &Point) -> (inside: bool)
        ensures
            inside == self.spec_contains(*point),
    {
        self.left <= point.x && point.x <= self.right && self.bottom <= point.y && point.y
            <= self.top
    }
}

} // verus!

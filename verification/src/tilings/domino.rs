//! The Domino (table) tiling.
//!
//! It has two tiles, a lying and a standing one. Each is divided into four:
//! two of its own kind in the middle, and one of the other kind at each end.
use vstd::prelude::*;
use crate::geometry::Domain;
use crate::tilings::{Divisible, Rectangular};

verus! {

/// The tiles of the Domino tiling, each with the rectangle that it covers.
#[derive(Clone, Copy, Debug, PartialEq, Eq, Structural)]
pub enum DominoTile {
    Horizontal(Domain),
    Vertical(Domain),
}

/// The part of `rect` that begins `dx` to the right of its left edge and
/// `dy` below its top edge, and is `w` wide and `h` high.
pub open spec fn spec_part(rect: Domain, dx: int, dy: int, w: int, h: int) -> Domain {
    Domain {
        left: (rect.left + dx) as i32,
        right: (rect.left + dx + w) as i32,
        bottom: (rect.top - dy - h) as i32,
        top: (rect.top - dy) as i32,
    }
}

/// The part of `rect` that begins `dx` to the right of its left edge and
/// `dy` below its top edge, and is `w` wide and `h` high.
pub fn part(rect: &Domain, dx: i64, dy: i64, w: i64, h: i64) -> (part: Domain)
    requires
        0 <= dx,
        0 <= w,
        dx + w <= rect.spec_w(),
        0 <= dy,
        0 <= h,
        dy + h <= rect.spec_h(),
    ensures
        part == spec_part(*rect, dx as int, dy as int, w as int, h as int),
        part.left <= part.right,
        part.bottom <= part.top,
{
    Domain {
        left: (rect.left as i64 + dx) as i32,
        right: (rect.left as i64 + dx + w) as i32,
        bottom: (rect.top as i64 - dy - h) as i32,
        top: (rect.top as i64 - dy) as i32,
    }
}

/// The successors of a tile lie in it and cover it: every position of the
/// tile lies in one of them, and their areas add up to its area.
pub proof fn lemma_parts_cover(tile: DominoTile, x: int, y: int)
    requires
        tile.divisible(),
    ensures
        tile.successors().len() == 4,
        forall|i: int|
            0 <= i < 4 ==> {
                let part = (#[trigger] tile.successors()[i]).spec_rect();
                let rect = tile.spec_rect();
                &&& rect.left <= part.left <= part.right <= rect.right
                &&& rect.bottom <= part.bottom <= part.top <= rect.top
            },
        tile.spec_rect().contains_xy(x, y) ==> exists|i: int|
            0 <= i < 4 && (#[trigger] tile.successors()[i]).spec_rect().contains_xy(x, y),
        tile.successors()[0].spec_rect().spec_area() + tile.successors()[1].spec_rect().spec_area()
            + tile.successors()[2].spec_rect().spec_area()
            + tile.successors()[3].spec_rect().spec_area() == tile.spec_rect().spec_area(),
{
    let rect = tile.spec_rect();
    let w = rect.spec_w();
    let h = rect.spec_h();
    let parts = tile.successors();
    match tile {
        DominoTile::Horizontal(_) => {
            let e = w / 4;
            let m = w - 2 * e;
            let u = h / 2;
            if rect.contains_xy(x, y) {
                if x <= rect.left + e {
                    assert(parts[0].spec_rect().contains_xy(x, y));
                } else if x >= rect.right - e {
                    assert(parts[3].spec_rect().contains_xy(x, y));
                } else if y >= rect.top - u {
                    assert(parts[1].spec_rect().contains_xy(x, y));
                } else {
                    assert(parts[2].spec_rect().contains_xy(x, y));
                }
            }
            assert(e * h + m * u + m * (h - u) + e * h == (e + m + e) * h) by (nonlinear_arith);
        },
        DominoTile::Vertical(_) => {
            let e = h / 4;
            let m = h - 2 * e;
            let u = w / 2;
            if rect.contains_xy(x, y) {
                if y >= rect.top - e {
                    assert(parts[0].spec_rect().contains_xy(x, y));
                } else if y <= rect.bottom + e {
                    assert(parts[3].spec_rect().contains_xy(x, y));
                } else if x <= rect.left + u {
                    assert(parts[1].spec_rect().contains_xy(x, y));
                } else {
                    assert(parts[2].spec_rect().contains_xy(x, y));
                }
            }
            assert(w * e + u * m + (w - u) * m + w * e == w * (e + m + e)) by (nonlinear_arith);
        },
    }
}

impl Rectangular for DominoTile {
    open spec fn spec_rect(&self) -> Domain {
        match *self {
            DominoTile::Horizontal(rect) => rect,
            DominoTile::Vertical(rect) => rect,
        }
    }

    fn rect(&self) -> (rect: &Domain) {
        match self {
            DominoTile::Horizontal(rect) => rect,
            DominoTile::Vertical(rect) => rect,
        }
    }
}

impl Divisible for DominoTile {
    open spec fn divisible(&self) -> bool {
        self.spec_rect().left <= self.spec_rect().right && self.spec_rect().bottom
            <= self.spec_rect().top
    }

    /// A lying tile gives a standing part at its left end, a quarter of the
    /// tile wide, two lying ones in the middle, the upper one first, and a
    /// standing one at its right end. A standing tile gives a lying part at
    /// its top, a quarter of the tile high, two standing ones in the middle,
    /// the left one first, and a lying one at its bottom. The quarters and
    /// halves are rounded down, and the parts in the middle take what is
    /// left, so that the four cover the tile.
    open spec fn successors(&self) -> Seq<Self> {
        let rect = self.spec_rect();
        let w = rect.spec_w();
        let h = rect.spec_h();
        match *self {
            DominoTile::Horizontal(_) => seq![
                DominoTile::Vertical(spec_part(rect, 0, 0, w / 4, h)),
                DominoTile::Horizontal(spec_part(rect, w / 4, 0, w - 2 * (w / 4), h / 2)),
                DominoTile::Horizontal(spec_part(rect, w / 4, h / 2, w - 2 * (w / 4), h - h / 2)),
                DominoTile::Vertical(spec_part(rect, w - w / 4, 0, w / 4, h)),
            ],
            DominoTile::Vertical(_) => seq![
                DominoTile::Horizontal(spec_part(rect, 0, 0, w, h / 4)),
                DominoTile::Vertical(spec_part(rect, 0, h / 4, w / 2, h - 2 * (h / 4))),
                DominoTile::Vertical(spec_part(rect, w / 2, h / 4, w - w / 2, h - 2 * (h / 4))),
                DominoTile::Horizontal(spec_part(rect, 0, h - h / 4, w, h / 4)),
            ],
        }
    }

    proof fn lemma_successors_divisible(&self) {
    }

    fn divide(&self) -> (tiles: Vec<Self>) {
        let rect = *self.rect();
        let w: i64 = rect.w();
        let h: i64 = rect.h();
        let tiles = match self {
            DominoTile::Horizontal(_) => {
                let end: i64 = w / 4;
                let middle: i64 = w - 2 * end;
                let left_end = part(&rect, 0, 0, end, h);
                let upper = part(&rect, end, 0, middle, h / 2);
                let lower = part(&rect, end, h / 2, middle, h - h / 2);
                let right_end = part(&rect, w - end, 0, end, h);
                vec![
                    DominoTile::Vertical(left_end),
                    DominoTile::Horizontal(upper),
                    DominoTile::Horizontal(lower),
                    DominoTile::Vertical(right_end),
                ]
            },
            DominoTile::Vertical(_) => {
                let end: i64 = h / 4;
                let middle: i64 = h - 2 * end;
                let top_end = part(&rect, 0, 0, w, end);
                let left = part(&rect, 0, end, w / 2, middle);
                let right = part(&rect, w / 2, end, w - w / 2, middle);
                let bottom_end = part(&rect, 0, h - end, w, end);
                vec![
                    DominoTile::Horizontal(top_end),
                    DominoTile::Vertical(left),
                    DominoTile::Vertical(right),
                    DominoTile::Horizontal(bottom_end),
                ]
            },
        };
        assert(tiles@ =~= self.successors());
        tiles
    }
}

} // verus!

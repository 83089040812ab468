//! The Wanderer (reflections) tiling.
//!
//! Its one tile is a square that has a handedness and an orientation. A tile
//! is divided into four squares of half its side; which hand and which
//! orientation each of them has follows from those of the tile.
use vstd::prelude::*;
use crate::geometry::Domain;
use crate::tilings::{Divisible, Rectangular};

verus! {

/// The side to which a tile of the Wanderer tiling points.
#[derive(Clone, Copy, Debug, PartialEq, Eq, Structural)]
pub enum WandererTileOrientation {
    Left,
    Right,
    Top,
    Bottom,
}

/// The two reflections of the tile of the Wanderer tiling, each with the
/// rectangle that the tile covers and with its orientation.
#[derive(Clone, Copy, Debug, PartialEq, Eq, Structural)]
pub enum WandererTile {
    LeftHanded(Domain, WandererTileOrientation),
    RightHanded(Domain, WandererTileOrientation),
}

/// The quarter of `rect` in one of its corners: at the right edge where
/// `at_right` and else at the left one, at the bottom edge where `at_bottom`
/// and else at the top one. The left quarters are half as wide as `rect`,
/// rounded down, and the top quarters half as high; the right and the bottom
/// quarters take what is left, so that the four cover `rect`.
pub open spec fn spec_quarter(rect: Domain, at_right: bool, at_bottom: bool) -> Domain {
    let middle = rect.left + rect.spec_w() / 2;
    let waist = rect.top - rect.spec_h() / 2;
    Domain {
        left: (if at_right { middle } else { rect.left as int }) as i32,
        right: (if at_right { rect.right as int } else { middle }) as i32,
        bottom: (if at_bottom { rect.bottom as int } else { waist }) as i32,
        top: (if at_bottom { waist } else { rect.top as int }) as i32,
    }
}

/// The quarter of `rect` in one of its corners.
pub fn quarter(rect: &Domain, at_right: bool, at_bottom: bool) -> (part: Domain)
    requires
        rect.left <= rect.right,
        rect.bottom <= rect.top,
    ensures
        part == spec_quarter(*rect, at_right, at_bottom),
        part.left <= part.right,
        part.bottom <= part.top,
{
    let middle: i32 = (rect.left as i64 + rect.w() / 2) as i32;
    let waist: i32 = (rect.top as i64 - rect.h() / 2) as i32;
    Domain {
        left: if at_right { middle } else { rect.left },
        right: if at_right { rect.right } else { middle },
        bottom: if at_bottom { rect.bottom } else { waist },
        top: if at_bottom { waist } else { rect.top },
    }
}

/// The four quarters of a rectangle lie in it and cover it: every position
/// of the rectangle lies in one of them, and their areas add up to its area.
pub proof fn lemma_quarters_cover(rect: Domain, x: int, y: int)
    requires
        rect.left <= rect.right,
        rect.bottom <= rect.top,
    ensures
        forall|at_right: bool, at_bottom: bool|
            {
                let part = #[trigger] spec_quarter(rect, at_right, at_bottom);
                &&& rect.left <= part.left <= part.right <= rect.right
                &&& rect.bottom <= part.bottom <= part.top <= rect.top
            },
        rect.contains_xy(x, y) ==> exists|at_right: bool, at_bottom: bool|
            (#[trigger] spec_quarter(rect, at_right, at_bottom)).contains_xy(x, y),
        spec_quarter(rect, false, false).spec_area() + spec_quarter(rect, true, false).spec_area()
            + spec_quarter(rect, false, true).spec_area() + spec_quarter(
            rect,
            true,
            true,
        ).spec_area() == rect.spec_area(),
{
    let middle = rect.left + rect.spec_w() / 2;
    let waist = rect.top - rect.spec_h() / 2;
    if rect.contains_xy(x, y) {
        assert(spec_quarter(rect, x > middle, y < waist).contains_xy(x, y));
    }
    let a = middle - rect.left;
    let b = rect.right - middle;
    let c = rect.top - waist;
    let d = waist - rect.bottom;
    assert(a * c + b * c + a * d + b * d == (a + b) * (c + d)) by (nonlinear_arith);
}

impl Rectangular for WandererTile {
    open spec fn spec_rect(&self) -> Domain {
        match *self {
            WandererTile::LeftHanded(rect, _) => rect,
            WandererTile::RightHanded(rect, _) => rect,
        }
    }

    fn rect(&self) -> (rect: &Domain) {
        match self {
            WandererTile::LeftHanded(rect, _) => rect,
            WandererTile::RightHanded(rect, _) => rect,
        }
    }
}

impl Divisible for WandererTile {
    open spec fn divisible(&self) -> bool {
        self.spec_rect().left <= self.spec_rect().right && self.spec_rect().bottom
            <= self.spec_rect().top
    }

    /// The four quarters of the tile: top left, top right, bottom left and
    /// bottom right.
    open spec fn successors(&self) -> Seq<Self> {
        let top_left = spec_quarter(self.spec_rect(), false, false);
        let top_right = spec_quarter(self.spec_rect(), true, false);
        let bottom_left = spec_quarter(self.spec_rect(), false, true);
        let bottom_right = spec_quarter(self.spec_rect(), true, true);
        match *self {
            WandererTile::LeftHanded(_, WandererTileOrientation::Bottom) => seq![
                WandererTile::LeftHanded(top_left, WandererTileOrientation::Left),
                WandererTile::LeftHanded(top_right, WandererTileOrientation::Bottom),
                WandererTile::RightHanded(bottom_left, WandererTileOrientation::Right),
                WandererTile::RightHanded(bottom_right, WandererTileOrientation::Bottom),
            ],
            WandererTile::LeftHanded(_, WandererTileOrientation::Left) => seq![
                WandererTile::RightHanded(top_left, WandererTileOrientation::Bottom),
                WandererTile::LeftHanded(top_right, WandererTileOrientation::Top),
                WandererTile::RightHanded(bottom_left, WandererTileOrientation::Left),
                WandererTile::LeftHanded(bottom_right, WandererTileOrientation::Left),
            ],
            WandererTile::LeftHanded(_, WandererTileOrientation::Top) => seq![
                WandererTile::RightHanded(top_left, WandererTileOrientation::Top),
                WandererTile::RightHanded(top_right, WandererTileOrientation::Left),
                WandererTile::LeftHanded(bottom_left, WandererTileOrientation::Top),
                WandererTile::LeftHanded(bottom_right, WandererTileOrientation::Right),
            ],
            WandererTile::LeftHanded(_, WandererTileOrientation::Right) => seq![
                WandererTile::LeftHanded(top_left, WandererTileOrientation::Right),
                WandererTile::RightHanded(top_right, WandererTileOrientation::Right),
                WandererTile::LeftHanded(bottom_left, WandererTileOrientation::Bottom),
                WandererTile::RightHanded(bottom_right, WandererTileOrientation::Top),
            ],
            WandererTile::RightHanded(_, WandererTileOrientation::Bottom) => seq![
                WandererTile::RightHanded(top_left, WandererTileOrientation::Bottom),
                WandererTile::RightHanded(top_right, WandererTileOrientation::Right),
                WandererTile::LeftHanded(bottom_left, WandererTileOrientation::Bottom),
                WandererTile::LeftHanded(bottom_right, WandererTileOrientation::Left),
            ],
            WandererTile::RightHanded(_, WandererTileOrientation::Left) => seq![
                WandererTile::LeftHanded(top_left, WandererTileOrientation::Left),
                WandererTile::RightHanded(top_right, WandererTileOrientation::Left),
                WandererTile::LeftHanded(bottom_left, WandererTileOrientation::Top),
                WandererTile::RightHanded(bottom_right, WandererTileOrientation::Bottom),
            ],
            WandererTile::RightHanded(_, WandererTileOrientation::Top) => seq![
                WandererTile::LeftHanded(top_left, WandererTileOrientation::Right),
                WandererTile::LeftHanded(top_right, WandererTileOrientation::Top),
                WandererTile::RightHanded(bottom_left, WandererTileOrientation::Left),
                WandererTile::RightHanded(bottom_right, WandererTileOrientation::Top),
            ],
            WandererTile::RightHanded(_, WandererTileOrientation::Right) => seq![
                WandererTile::RightHanded(top_left, WandererTileOrientation::Top),
                WandererTile::LeftHanded(top_right, WandererTileOrientation::Bottom),
                WandererTile::RightHanded(bottom_left, WandererTileOrientation::Right),
                WandererTile::LeftHanded(bottom_right, WandererTileOrientation::Right),
            ],
        }
    }

    proof fn lemma_successors_divisible(&self) {
    }

    fn divide(&self) -> (tiles: Vec<Self>) {
        let rect = *self.rect();
        let top_left = quarter(&rect, false, false);
        let top_right = quarter(&rect, true, false);
        let bottom_left = quarter(&rect, false, true);
        let bottom_right = quarter(&rect, true, true);
        let tiles = match self {
            WandererTile::LeftHanded(_, tile_orientation) => match tile_orientation {
                WandererTileOrientation::Bottom => vec![
                    WandererTile::LeftHanded(top_left, WandererTileOrientation::Left),
                    WandererTile::LeftHanded(top_right, WandererTileOrientation::Bottom),
                    WandererTile::RightHanded(bottom_left, WandererTileOrientation::Right),
                    WandererTile::RightHanded(bottom_right, WandererTileOrientation::Bottom),
                ],
                WandererTileOrientation::Left => vec![
                    WandererTile::RightHanded(top_left, WandererTileOrientation::Bottom),
                    WandererTile::LeftHanded(top_right, WandererTileOrientation::Top),
                    WandererTile::RightHanded(bottom_left, WandererTileOrientation::Left),
                    WandererTile::LeftHanded(bottom_right, WandererTileOrientation::Left),
                ],
                WandererTileOrientation::Top => vec![
                    WandererTile::RightHanded(top_left, WandererTileOrientation::Top),
                    WandererTile::RightHanded(top_right, WandererTileOrientation::Left),
                    WandererTile::LeftHanded(bottom_left, WandererTileOrientation::Top),
                    WandererTile::LeftHanded(bottom_right, WandererTileOrientation::Right),
                ],
                WandererTileOrientation::Right => vec![
                    WandererTile::LeftHanded(top_left, WandererTileOrientation::Right),
                    WandererTile::RightHanded(top_right, WandererTileOrientation::Right),
                    WandererTile::LeftHanded(bottom_left, WandererTileOrientation::Bottom),
                    WandererTile::RightHanded(bottom_right, WandererTileOrientation::Top),
                ],
            },
            WandererTile::RightHanded(_, tile_orientation) => match tile_orientation {
                WandererTileOrientation::Bottom => vec![
                    WandererTile::RightHanded(top_left, WandererTileOrientation::Bottom),
                    WandererTile::RightHanded(top_right, WandererTileOrientation::Right),
                    WandererTile::LeftHanded(bottom_left, WandererTileOrientation::Bottom),
                    WandererTile::LeftHanded(bottom_right, WandererTileOrientation::Left),
                ],
                WandererTileOrientation::Left => vec![
                    WandererTile::LeftHanded(top_left, WandererTileOrientation::Left),
                    WandererTile::RightHanded(top_right, WandererTileOrientation::Left),
                    WandererTile::LeftHanded(bottom_left, WandererTileOrientation::Top),
                    WandererTile::RightHanded(bottom_right, WandererTileOrientation::Bottom),
                ],
                WandererTileOrientation::Top => vec![
                    WandererTile::LeftHanded(top_left, WandererTileOrientation::Right),
                    WandererTile::LeftHanded(top_right, WandererTileOrientation::Top),
                    WandererTile::RightHanded(bottom_left, WandererTileOrientation::Left),
                    WandererTile::RightHanded(bottom_right, WandererTileOrientation::Top),
                ],
                WandererTileOrientation::Right => vec![
                    WandererTile::RightHanded(top_left, WandererTileOrientation::Top),
                    WandererTile::LeftHanded(top_right, WandererTileOrientation::Bottom),
                    WandererTile::RightHanded(bottom_left, WandererTileOrientation::Right),
                    WandererTile::LeftHanded(bottom_right, WandererTileOrientation::Right),
                ],
            },
        };
        assert(tiles@ =~= self.successors());
        tiles
    }
}

} // verus!

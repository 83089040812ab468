//! Tilings by subdivision.
//!
//! A tiling covers the plane with tiles, without gaps and without overlaps.
//! Those of this module come about by division: each tile is divided into
//! its successors, step after step.
use vstd::prelude::*;
use crate::geometry::Domain;

pub mod domino;
pub mod from_tile;
pub mod wanderer;

verus! {

/// Tiles that can be divided into their successors.
pub trait Divisible: Sized {
    /// Whether the tile can be divided.
    spec fn divisible(&self) -> bool;

    /// The successors of the tile, in the order in which they are placed.
    spec fn successors(&self) -> Seq<Self>;

    /// The successors of a tile that can be divided can be divided.
    proof fn lemma_successors_divisible(&self)
        requires
            self.divisible(),
        ensures
            forall|i: int| 0 <= i < self.successors().len() ==> (#[trigger] self.successors()[i]).divisible(),
    ;

    /// Divides the tile into its successors.
    fn divide(&self) -> (tiles: Vec<Self>)
        requires
            self.divisible(),
        ensures
            tiles@ == self.successors(),
    ;
}

/// Tiles that cover a rectangle.
pub trait Rectangular {
    /// The rectangle that the tile covers.
    spec fn spec_rect(&self) -> Domain;

    /// The rectangle that the tile covers.
    fn rect(&self) -> (rect: &Domain)
        ensures
            *rect == self.spec_rect(),
    ;
}

/// Whether each of `tiles` can be divided.
pub open spec fn all_divisible<T: Divisible>(tiles: Seq<T>) -> bool {
    forall|i: int| 0 <= i < tiles.len() ==> (#[trigger] tiles[i]).divisible()
}

/// The successors of all of `tiles`, those of the first tile first.
pub open spec fn divide_all<T: Divisible>(tiles: Seq<T>) -> Seq<T>
    decreases tiles.len(),
{
    if tiles.len() == 0 {
        Seq::empty()
    } else {
        divide_all(tiles.drop_last()) + tiles.last().successors()
    }
}

/// What becomes of `tiles` when all of them are divided, `steps` times over.
pub open spec fn tiling_after<T: Divisible>(tiles: Seq<T>, steps: nat) -> Seq<T>
    decreases steps,
{
    if steps == 0 {
        tiles
    } else {
        tiling_after(divide_all(tiles), (steps - 1) as nat)
    }
}

/// Where each of `tiles` can be divided, so can each of their successors.
pub proof fn lemma_divide_all_divisible<T: Divisible>(tiles: Seq<T>)
    requires
        all_divisible(tiles),
    ensures
        all_divisible(divide_all(tiles)),
    decreases tiles.len(),
{
    if tiles.len() > 0 {
        lemma_divide_all_divisible(tiles.drop_last());
        tiles.last().lemma_successors_divisible();
    }
}

/// Divides each of `tiles` and lines the successors up.
pub fn divide_tiles<T: Divisible>(tiles: &Vec<T>) -> (divided: Vec<T>)
    requires
        all_divisible(tiles@),
    ensures
        divided@ == divide_all(tiles@),
{
    let mut divided: Vec<T> = Vec::new();
    let mut i: usize = 0;
    while i < tiles.len()
        invariant
            i <= tiles.len(),
            all_divisible(tiles@),
            divided@ == divide_all(tiles@.take(i as int)),
        decreases tiles.len() - i,
    {
        let mut successors = tiles[i].divide();
        divided.append(&mut successors);
        proof {
            assert(tiles@.take(i + 1).drop_last() =~= tiles@.take(i as int));
        }
        i = i + 1;
    }
    proof {
        assert(tiles@.take(tiles.len() as int) =~= tiles@);
    }
    divided
}

/// Creates a tiling from the first tiles: divides all tiles, and the
/// successors again, `steps` times over, and returns the tiles of the last
/// step.
pub fn create_tiling<T>(tiles: Vec<T>, steps: u8) -> (tiling: Vec<T>) where T: Divisible
    requires
        steps >= 1,
        all_divisible(tiles@),
    ensures
        tiling@ == tiling_after(tiles@, steps as nat),
    decreases steps,
{
    let steps: u8 = steps - 1;
    let divided_tiles: Vec<T> = divide_tiles(&tiles);
    if steps == 0 {
        assert(tiling_after(divided_tiles@, 0) == divided_tiles@);
        divided_tiles
    } else {
        proof {
            lemma_divide_all_divisible(tiles@);
        }
        create_tiling(divided_tiles, steps)
    }
}

} // verus!

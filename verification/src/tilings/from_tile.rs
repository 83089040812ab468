//! Tilings that grow out of a single tile.
use vstd::prelude::*;
use crate::tilings::{all_divisible, divide_tiles, lemma_divide_all_divisible, tiling_after, Divisible};

verus! {

/// Tiles that can be divided into their successors: every [`Divisible`] tile,
/// under the name by which this module asks for it.
pub trait Divide: Divisible {

}

impl<T: Divisible> Divide for T {

}

/// Creates a tiling from one tile: divides it, and all successors again,
/// `steps` times over. Without a step the tiling is the tile itself.
pub fn create_tiling<T>(tile: T, steps: u32) -> (tiling: Vec<T>) where T: Divide
    requires
        tile.divisible(),
    ensures
        tiling@ == tiling_after(seq![tile], steps as nat),
{
    let mut tiles: Vec<T> = Vec::new();
    tiles.push(tile);
    assert(tiles@ =~= seq![tile]);
    let mut done: u32 = 0;
    while done < steps
        invariant
            done <= steps,
            all_divisible(tiles@),
            tiling_after(tiles@, (steps - done) as nat) == tiling_after(seq![tile], steps as nat),
        decreases steps - done,
    {
        proof {
            lemma_divide_all_divisible(tiles@);
        }
        tiles = divide_tiles(&tiles);
        done = done + 1;
    }
    tiles
}

} // verus!

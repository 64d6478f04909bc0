//! The shared list of tiles that workers take their work from.

use vstd::prelude::*;

use crate::tile::{is_tiling, make_tiles, Tile};

verus! {

/// The tiles not yet handed out. Workers take them one at a time from the end
/// of the list; a worker that finds it empty stops.
pub struct WorkList {
    tiles: Vec<Tile>,
}

impl View for WorkList {
    type V = Seq<Tile>;

    closed spec fn view(&self) -> Seq<Tile> {
        self.tiles@
    }
}

impl WorkList {
    /// A list that hands out `tiles`, the last one first.
    pub fn new(tiles: Vec<Tile>) -> (r: Self)
        ensures
            r@ == tiles@,
    {
        WorkList { tiles }
    }

    /// The work of rendering a `width` x `height` image in tiles of side `size`:
    /// the row-major partition of the image.
    pub fn for_image(width: u32, height: u32, size: u32) -> (r: Self)
        requires
            size > 0,
        ensures
            is_tiling(r@, width as int, height as int, size as int),
    {
        WorkList { tiles: make_tiles(width, height, size) }
    }

    /// Hands out the next tile, or `None` once every tile has been handed out.
    pub fn pop(&mut self) -> (r: Option<Tile>)
        ensures
            old(self)@.len() == 0 ==> r is None && final(self)@ == old(self)@,
            old(self)@.len() > 0 ==> r == Some(old(self)@.last()) && final(self)@
                == old(self)@.drop_last(),
    {
        self.tiles.pop()
    }

    pub fn len(&self) -> (r: usize)
        ensures
            r == self@.len(),
    {
        self.tiles.len()
    }

    pub fn is_empty(&self) -> (r: bool)
        ensures
            r == (self@.len() == 0),
    {
        self.tiles.len() == 0
    }
}

} // verus!

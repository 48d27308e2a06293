//! Sprites: a positioned instance of a tile in world space.

use vstd::prelude::*;

use crate::geom::Point;
use crate::tile::{Tile, TileView};

verus! {

/// Mathematical content of a sprite: its tile's content and its world
/// position.
pub ghost struct SpriteView {
    pub tile: TileView,
    pub pos: Point,
}

/// A tile placed at a world position. Sprites are created through the
/// world's registry, which assigns their identifiers.
#[derive(Debug)]
pub struct Sprite {
    pub tile: Tile,
    pub pos: Point,
}

impl View for Sprite {
    type V = SpriteView;

    open spec fn view(&self) -> SpriteView {
        SpriteView { tile: self.tile@, pos: self.pos }
    }
}

impl Sprite {
    /// A sprite showing a copy of `tile`, placed at the world origin.
    pub fn new(tile: &Tile) -> (s: Self)
        ensures
            s@.tile == tile@,
            s@.pos == (Point { x: 0, y: 0 }),
    {
        Self { tile: tile.clone(), pos: Point { x: 0, y: 0 } }
    }

    /// Moves the sprite.
    pub fn set_position(&mut self, x: i64, y: i64)
        ensures
            final(self)@.tile == old(self)@.tile,
            final(self)@.pos == (Point { x, y }),
    {
        self.pos.x = x;
        self.pos.y = y;
    }
}

} // verus!

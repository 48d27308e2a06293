//! Hardware drivers: converting draw operations into device-specific wire
//! commands, with a content-addressed cache of device-resident tiles.
//!
//! Two device variants exist. The first is a monochrome, 4-shade, fixed
//! 160 x 144 tile device; the second is a color-capable device of the same
//! class whose drawing capabilities are not implemented. A capability a
//! variant lacks fails fast with [`DrawError::Unsupported`].

use vstd::prelude::*;

use crate::color::Color;
use crate::geom::{Point, Screen};
use crate::sprite::Sprite;
use crate::tile::{Tile, TileView};
use crate::wire::{
    command_draw_text, command_load_tiles, command_set_background_tiles,
    command_set_sprite_position, command_set_sprite_tile, spec_draw_text_bytes,
    spec_load_tiles_bytes, spec_set_background_tiles_bytes, spec_set_sprite_position_bytes,
    spec_set_sprite_tile_bytes,
};

verus! {

/// A capability the selected device variant does not implement.
#[derive(Debug, Clone, Copy, PartialEq, Eq, Structural)]
pub enum DrawError {
    Unsupported,
}

// Shade computation. Real-valued luminance of a pixel with channels
// normalized to [0, 1] is 0.2126 r + 0.7152 g + 0.0722 b; the device shade
// is clamp(round((1 - luminance) * 4), 0, 3). Scaling by 10000 * 255 makes
// the rounding exact in integers: with L = 2126 r + 7152 g + 722 b (at most
// 2550000), round((1 - luminance) * 4) = (2 * (2550000 - L) + 637500) /
// 1275000, truncated.

/// Scaled luminance of a pixel: `2126 r + 7152 g + 722 b`, in units of
/// 1 / (10000 * 255) of full brightness.
pub open spec fn spec_luminance(c: Color) -> int {
    2126 * c.r + 7152 * c.g + 722 * c.b
}

/// The 4-shade level of a pixel: 0 is lightest, 3 darkest.
pub open spec fn spec_shade(c: Color) -> int {
    let v = (2 * (2550000 - spec_luminance(c)) + 637500) / 1275000;
    if v > 3 {
        3
    } else {
        v
    }
}

/// Computes a pixel's shade level.
pub fn shade(c: Color) -> (s: u8)
    ensures
        s == spec_shade(c),
        s <= 3,
{
    let lum: u32 = 2126 * (c.r as u32) + 7152 * (c.g as u32) + 722 * (c.b as u32);
    let v: u32 = (2 * (2550000 - lum) + 637500) / 1275000;
    if v > 3 {
        3
    } else {
        v as u8
    }
}

/// Two to the power `x`.
pub open spec fn two_pow(x: int) -> int
    decreases x,
{
    if x <= 0 {
        1
    } else {
        2 * two_pow(x - 1)
    }
}

/// One bit-plane byte of one 8-pixel row starting at pixel index `base`,
/// after the first `x` columns: column 0 lands in the most significant
/// bit. The low plane holds each shade's least significant bit, the high
/// plane the other.
pub open spec fn spec_plane_byte(pixels: Seq<Color>, base: int, lo_plane: bool, x: int) -> int
    decreases x,
{
    if x <= 0 {
        0
    } else {
        let s = spec_shade(pixels[base + (x - 1)]);
        let bit = if lo_plane {
            s % 2
        } else {
            s / 2
        };
        2 * spec_plane_byte(pixels, base, lo_plane, x - 1) + bit
    }
}

/// A plane byte over `x` columns stays below `2^x`.
pub proof fn lemma_plane_byte_bound(pixels: Seq<Color>, base: int, lo_plane: bool, x: int)
    ensures
        0 <= spec_plane_byte(pixels, base, lo_plane, x) < two_pow(x),
    decreases x,
{
    if x <= 0 {
    } else {
        lemma_plane_byte_bound(pixels, base, lo_plane, x - 1);
    }
}

/// The device encoding of an 8 x 8 tile: sixteen bytes, two per row, the
/// high bit-plane byte first.
pub open spec fn spec_gb_tile(pixels: Seq<Color>) -> Seq<u8> {
    Seq::new(
        16,
        |k: int|
            if k % 2 == 0 {
                spec_plane_byte(pixels, (k / 2) * 8, false, 8) as u8
            } else {
                spec_plane_byte(pixels, (k / 2) * 8, true, 8) as u8
            },
    )
}

/// Packs an 8 x 8 tile into the device's native 2-bits-per-pixel format.
pub fn tile_to_gb(tile: &Tile) -> (r: Vec<u8>)
    requires
        tile@.is_8x8(),
    ensures
        r@ == spec_gb_tile(tile@.pixels),
{
    let ghost pixels = tile@.pixels;
    let mut out: Vec<u8> = Vec::new();
    let mut row: usize = 0;
    while row < 8
        invariant
            row <= 8,
            tile@.is_8x8(),
            pixels == tile@.pixels,
            out@ =~= spec_gb_tile(pixels).subrange(0, 2 * row as int),
        decreases 8 - row,
    {
        let mut hi: u8 = 0;
        let mut lo: u8 = 0;
        let mut x: usize = 0;
        while x < 8
            invariant
                x <= 8,
                row < 8,
                tile@.is_8x8(),
                pixels == tile@.pixels,
                hi as int == spec_plane_byte(pixels, row * 8, false, x as int),
                lo as int == spec_plane_byte(pixels, row * 8, true, x as int),
            decreases 8 - x,
        {
            proof {
                lemma_plane_byte_bound(pixels, row * 8, false, x as int);
                lemma_plane_byte_bound(pixels, row * 8, true, x as int);
                reveal_with_fuel(two_pow, 10);
                assert(two_pow(7) == 128);
            }
            let c = tile.pixels[row * 8 + x];
            let s = shade(c);
            hi = hi * 2 + s / 2;
            lo = lo * 2 + s % 2;
            x = x + 1;
        }
        proof {
            lemma_plane_byte_bound(pixels, row * 8, false, 8);
            lemma_plane_byte_bound(pixels, row * 8, true, 8);
            reveal_with_fuel(two_pow, 10);
            assert(two_pow(8) == 256);
        }
        out.push(hi);
        out.push(lo);
        proof {
            assert(out@ =~= spec_gb_tile(pixels).subrange(0, 2 * (row + 1)));
        }
        row = row + 1;
    }
    assert(out@ =~= spec_gb_tile(pixels));
    out
}

/// Whether two tiles have identical content.
pub fn tiles_equal(a: &Tile, b: &Tile) -> (r: bool)
    ensures
        r == (a@ == b@),
{
    if a.width != b.width || a.height != b.height || a.pixels.len() != b.pixels.len() {
        return false;
    }
    let n = a.pixels.len();
    let mut i: usize = 0;
    while i < n
        invariant
            i <= n,
            n == a@.pixels.len(),
            n == b@.pixels.len(),
            a@.width == b@.width,
            a@.height == b@.height,
            forall|j: int| 0 <= j < i ==> a@.pixels[j] == b@.pixels[j],
        decreases n - i,
    {
        if a.pixels[i] != b.pixels[i] {
            return false;
        }
        i = i + 1;
    }
    proof {
        assert(a@.pixels =~= b@.pixels);
    }
    true
}

// Content-addressed tile cache: a tile's content maps to at most one device
// tile index, identical content never produces two uploads, and distinct
// content never shares an index. The table never evicts; device tile memory
// is a finite resource this design does not reclaim.

/// Whether the cache already holds a tile with this content.
pub open spec fn cache_has(cache: Seq<TileView>, t: TileView) -> bool {
    exists|i: int| 0 <= i < cache.len() && cache[i] == t
}

/// The cache position of a held tile; unique when the cache is distinct.
pub open spec fn cache_index(cache: Seq<TileView>, t: TileView) -> int {
    choose|i: int| 0 <= i < cache.len() && cache[i] == t
}

/// No two cache entries share content.
pub open spec fn cache_distinct(cache: Seq<TileView>) -> bool {
    forall|i: int, j: int| 0 <= i < j < cache.len() ==> cache[i] != cache[j]
}

/// The device tile index a draw of `t` uses: a held tile keeps its index,
/// a new one takes the next free slot. Indices are 1-based; slot 0 is left
/// to the device's blank background tile.
pub open spec fn spec_device_index(cache: Seq<TileView>, t: TileView) -> int {
    if cache_has(cache, t) {
        cache_index(cache, t) + 1
    } else {
        cache.len() + 1int
    }
}

/// The cache after a draw of `t`: unchanged on a hit, extended on a miss.
pub open spec fn spec_cache_after(cache: Seq<TileView>, t: TileView) -> Seq<TileView> {
    if cache_has(cache, t) {
        cache
    } else {
        cache.push(t)
    }
}

/// The upload commands a draw of `t` emits: none on a hit, one load-tiles
/// record carrying the device encoding on a miss.
pub open spec fn spec_load_cmds(cache: Seq<TileView>, t: TileView) -> Seq<Seq<u8>> {
    if cache_has(cache, t) {
        Seq::empty()
    } else {
        seq![spec_load_tiles_bytes(true, (cache.len() + 1) as u16, 1, spec_gb_tile(t.pixels))]
    }
}

/// The driver of the monochrome 4-shade device: its screen placement and
/// the contents of device tile memory, in upload order. The tile at cache
/// position `i` lives at device tile index `i + 1`.
#[derive(Debug)]
pub struct GameBoyDriver {
    pub screen: Screen,
    pub loaded_tiles: Vec<Tile>,
}

impl GameBoyDriver {
    /// The cached tile contents, in upload order.
    pub open spec fn cache(self) -> Seq<TileView> {
        self.loaded_tiles@.map_values(|t: Tile| t@)
    }

    /// Screen placement is bounded, cached tiles are complete 8 x 8 tiles,
    /// no two cache entries share content, and the cache fits the one-byte
    /// device index space.
    pub open spec fn wf(self) -> bool {
        &&& self.screen.wf()
        &&& cache_distinct(self.cache())
        &&& forall|i: int| 0 <= i < self.cache().len() ==> self.cache()[i].is_8x8()
        &&& self.cache().len() <= 255
    }

    /// A fresh driver: default screen placement, empty tile cache.
    pub fn new() -> (d: Self)
        ensures
            d.screen == (Screen {
                pos: Point { x: 0, y: 0 },
                size: Point { x: 4800, y: 4300 },
                res_x: 160usize,
                res_y: 144usize,
            }),
            d.cache() =~= Seq::<TileView>::empty(),
            d.wf(),
    {
        Self {
            screen: Screen {
                pos: Point { x: 0, y: 0 },
                size: Point { x: 4800, y: 4300 },
                res_x: 160,
                res_y: 144,
            },
            loaded_tiles: Vec::new(),
        }
    }

    /// Resolves a tile against the cache: returns the upload commands (one
    /// on a miss, none on a hit) and the tile's device index.
    pub fn load_tile_if_needed(&mut self, tile: &Tile) -> (r: (Vec<Vec<u8>>, u8))
        requires
            old(self).wf(),
            tile@.is_8x8(),
            cache_has(old(self).cache(), tile@) || old(self).cache().len() < 255,
        ensures
            final(self).screen == old(self).screen,
            final(self).cache() =~= spec_cache_after(old(self).cache(), tile@),
            final(self).wf(),
            r.0.deep_view() =~= spec_load_cmds(old(self).cache(), tile@),
            r.1 as int == spec_device_index(old(self).cache(), tile@),
            1 <= r.1 <= final(self).cache().len(),
            final(self).cache()[r.1 - 1] == tile@,
    {
        let ghost old_cache = self.cache();
        let n = self.loaded_tiles.len();
        let mut i: usize = 0;
        while i < n
            invariant
                i <= n,
                *self == *old(self),
                old(self).wf(),
                cache_has(old_cache, tile@) || old(self).cache().len() < 255,
                old_cache == self.cache(),
                n == self.loaded_tiles@.len(),
                forall|j: int| 0 <= j < i ==> self.cache()[j] != tile@,
            decreases n - i,
        {
            if tiles_equal(&self.loaded_tiles[i], tile) {
                proof {
                    assert(self.cache()[i as int] == self.loaded_tiles@.map_values(
                        |t: Tile| t@,
                    )[i as int]);
                    assert(self.cache()[i as int] == tile@);
                    assert(cache_has(old_cache, tile@));
                    let k = cache_index(old_cache, tile@);
                    assert(old_cache[k] == tile@);
                    assert(k == i as int);
                }
                let empty: Vec<Vec<u8>> = Vec::new();
                proof {
                    assert(empty.deep_view() =~~= spec_load_cmds(old_cache, tile@));
                }
                return (empty, (i + 1) as u8);
            }
            i = i + 1;
        }
        proof {
            assert(!cache_has(old_cache, tile@));
        }
        let this_tile_index: u8 = (n + 1) as u8;
        let gb_data = tile_to_gb(tile);
        let cmd = command_load_tiles(true, this_tile_index as u16, 1, gb_data);
        let mut commands: Vec<Vec<u8>> = Vec::new();
        commands.push(cmd);
        self.loaded_tiles.push(tile.clone());
        proof {
            assert(self.cache() =~= old_cache.push(tile@));
            assert(commands.deep_view() =~~= spec_load_cmds(old_cache, tile@));
        }
        (commands, this_tile_index)
    }
}

/// The driver of the color-capable device variant: screen placement only;
/// none of the drawing capabilities are implemented.
#[derive(Debug)]
pub struct GameBoyColorDriver {
    pub screen: Screen,
}

impl GameBoyColorDriver {
    /// A fresh driver with the default screen placement.
    pub fn new() -> (d: Self)
        ensures
            d.screen == (Screen {
                pos: Point { x: 0, y: 0 },
                size: Point { x: 4800, y: 4300 },
                res_x: 160usize,
                res_y: 144usize,
            }),
            d.screen.wf(),
    {
        Self {
            screen: Screen {
                pos: Point { x: 0, y: 0 },
                size: Point { x: 4800, y: 4300 },
                res_x: 160,
                res_y: 144,
            },
        }
    }
}


// Draw operations of the monochrome 4-shade device.

/// The command list a tile draw emits: the upload on a cache miss, then the
/// placement of the tile's device index on the background grid (in units of
/// 8-pixel tile cells).
pub open spec fn spec_draw_tile_cmds(cache: Seq<TileView>, t: TileView, x: u8, y: u8) -> Seq<
    Seq<u8>,
> {
    spec_load_cmds(cache, t) + seq![
        spec_set_background_tiles_bytes(
            (x / 8) as u8,
            (y / 8) as u8,
            1,
            1,
            seq![spec_device_index(cache, t) as u8],
        ),
    ]
}

/// The command list a sprite draw emits: the upload on a cache miss, then
/// the sprite slot's tile assignment and its new position.
pub open spec fn spec_draw_sprite_cmds(
    cache: Seq<TileView>,
    t: TileView,
    slot: u8,
    x: u8,
    y: u8,
) -> Seq<Seq<u8>> {
    spec_load_cmds(cache, t) + seq![
        spec_set_sprite_tile_bytes(slot, spec_device_index(cache, t) as u8),
        spec_set_sprite_position_bytes(slot, x, y),
    ]
}

impl GameBoyDriver {
    /// Emits the draw-text command. Text must be ASCII and fit the one-byte
    /// length field.
    pub fn draw_text(&mut self, text: &str, x: u32, y: u32) -> (r: Vec<Vec<u8>>)
        requires
            text.is_ascii(),
            text@.len() <= 255,
        ensures
            *final(self) == *old(self),
            r.deep_view() =~~= seq![spec_draw_text_bytes(x, y, text@)],
    {
        let mut commands: Vec<Vec<u8>> = Vec::new();
        commands.push(command_draw_text(text, x, y));
        commands
    }

    /// Draws a tile at pixel position `(x, y)` by placing it on the
    /// background tile grid, uploading its content first if the cache does
    /// not hold it yet.
    pub fn draw_tile(&mut self, tile: &Tile, x: u8, y: u8) -> (r: Vec<Vec<u8>>)
        requires
            old(self).wf(),
            tile@.is_8x8(),
            cache_has(old(self).cache(), tile@) || old(self).cache().len() < 255,
        ensures
            final(self).screen == old(self).screen,
            final(self).cache() =~= spec_cache_after(old(self).cache(), tile@),
            final(self).wf(),
            r.deep_view() =~~= spec_draw_tile_cmds(old(self).cache(), tile@, x, y),
    {
        let (mut commands, tile_index) = self.load_tile_if_needed(tile);
        let mut indices: Vec<u8> = Vec::new();
        indices.push(tile_index);
        proof {
            assert(indices@ =~= seq![tile_index]);
        }
        let cmd = command_set_background_tiles(x / 8, y / 8, 1, 1, indices);
        commands.push(cmd);
        proof {
            assert(commands.deep_view() =~~= spec_draw_tile_cmds(old(self).cache(), tile@, x, y));
        }
        commands
    }

    /// Draws a sprite: assigns the sprite slot's tile (uploading it first if
    /// needed) and moves the slot to local pixel coordinates `(x, y)`. The
    /// slot is the sprite identifier truncated to one byte.
    pub fn draw_sprite(&mut self, id: usize, sprite: &Sprite, x: u8, y: u8) -> (r: Vec<Vec<u8>>)
        requires
            old(self).wf(),
            sprite@.tile.is_8x8(),
            cache_has(old(self).cache(), sprite@.tile) || old(self).cache().len() < 255,
        ensures
            final(self).screen == old(self).screen,
            final(self).cache() =~= spec_cache_after(old(self).cache(), sprite@.tile),
            final(self).wf(),
            r.deep_view() =~~= spec_draw_sprite_cmds(
                old(self).cache(),
                sprite@.tile,
                (id % 256) as u8,
                x,
                y,
            ),
    {
        let (mut commands, tile_index) = self.load_tile_if_needed(&sprite.tile);
        let slot: u8 = (id % 256) as u8;
        commands.push(command_set_sprite_tile(slot, tile_index));
        commands.push(command_set_sprite_position(slot, x, y));
        proof {
            assert(commands.deep_view() =~~= spec_draw_sprite_cmds(
                old(self).cache(),
                sprite@.tile,
                (id % 256) as u8,
                x,
                y,
            ));
        }
        commands
    }
}

/// The hardware-capability abstraction: a closed union over the two known
/// device variants, matched exhaustively.
#[derive(Debug)]
pub enum Driver {
    GameBoy(GameBoyDriver),
    GameBoyColor(GameBoyColorDriver),
}

impl Driver {
    /// Whether this is the monochrome 4-shade variant, the one that
    /// implements the drawing capabilities.
    pub open spec fn is_gameboy(self) -> bool {
        self is GameBoy
    }

    /// The screen placement the driver holds.
    pub open spec fn spec_screen(self) -> Screen {
        match self {
            Driver::GameBoy(d) => d.screen,
            Driver::GameBoyColor(d) => d.screen,
        }
    }

    /// The device tile cache; the color variant uploads nothing.
    pub open spec fn spec_cache(self) -> Seq<TileView> {
        match self {
            Driver::GameBoy(d) => d.cache(),
            Driver::GameBoyColor(_) => Seq::empty(),
        }
    }

    pub open spec fn wf(self) -> bool {
        match self {
            Driver::GameBoy(d) => d.wf(),
            Driver::GameBoyColor(d) => d.screen.wf(),
        }
    }

    /// Read access to the screen placement.
    pub fn screen(&self) -> (s: &Screen)
        ensures
            *s == self.spec_screen(),
    {
        match self {
            Driver::GameBoy(d) => &d.screen,
            Driver::GameBoyColor(d) => &d.screen,
        }
    }

    /// Moves the screen to a new world position; everything else, the tile
    /// cache included, is kept.
    pub fn set_position(&mut self, x: i64, y: i64)
        requires
            old(self).wf(),
            -crate::geom::COORD_LIMIT <= x <= crate::geom::COORD_LIMIT,
            -crate::geom::COORD_LIMIT <= y <= crate::geom::COORD_LIMIT,
        ensures
            final(self).spec_screen() == (Screen {
                pos: Point { x, y },
                ..old(self).spec_screen()
            }),
            final(self).spec_cache() == old(self).spec_cache(),
            final(self).is_gameboy() == old(self).is_gameboy(),
            final(self).wf(),
    {
        match self {
            Driver::GameBoy(d) => {
                d.screen.pos.x = x;
                d.screen.pos.y = y;
            },
            Driver::GameBoyColor(d) => {
                d.screen.pos.x = x;
                d.screen.pos.y = y;
            },
        }
    }

    /// Draws text. Only the monochrome variant implements this; text must
    /// be ASCII and fit the one-byte length field.
    pub fn draw_text(&mut self, text: &str, x: u32, y: u32) -> (r: Result<
        Vec<Vec<u8>>,
        DrawError,
    >)
        requires
            old(self).wf(),
            text.is_ascii(),
            text@.len() <= 255,
        ensures
            *final(self) == *old(self),
            old(self).is_gameboy() ==> (r matches Ok(cmds) && cmds.deep_view() =~~= seq![
                spec_draw_text_bytes(x, y, text@),
            ]),
            !old(self).is_gameboy() ==> (r matches Err(e) && e == DrawError::Unsupported),
    {
        match self {
            Driver::GameBoy(d) => Ok(d.draw_text(text, x, y)),
            Driver::GameBoyColor(_) => Err(DrawError::Unsupported),
        }
    }

    /// Draws a tile on the background grid. Only the monochrome variant
    /// implements this.
    pub fn draw_tile(&mut self, tile: &Tile, x: u8, y: u8) -> (r: Result<Vec<Vec<u8>>, DrawError>)
        requires
            old(self).wf(),
            tile@.is_8x8(),
            cache_has(old(self).spec_cache(), tile@) || old(self).spec_cache().len() < 255,
        ensures
            final(self).wf(),
            final(self).spec_screen() == old(self).spec_screen(),
            final(self).is_gameboy() == old(self).is_gameboy(),
            old(self).is_gameboy() ==> (r matches Ok(cmds) && cmds.deep_view()
                =~~= spec_draw_tile_cmds(old(self).spec_cache(), tile@, x, y) && final(self).spec_cache() =~= spec_cache_after(old(self).spec_cache(), tile@)),
            !old(self).is_gameboy() ==> (r matches Err(e) && e == DrawError::Unsupported
                && *final(self) == *old(self)),
    {
        match self {
            Driver::GameBoy(d) => Ok(d.draw_tile(tile, x, y)),
            Driver::GameBoyColor(_) => Err(DrawError::Unsupported),
        }
    }

    /// Draws a whole image. Neither device variant implements this
    /// capability.
    pub fn draw_image(&mut self) -> (r: Result<Vec<Vec<u8>>, DrawError>)
        ensures
            *final(self) == *old(self),
            r matches Err(e) && e == DrawError::Unsupported,
    {
        match self {
            Driver::GameBoy(_) => Err(DrawError::Unsupported),
            Driver::GameBoyColor(_) => Err(DrawError::Unsupported),
        }
    }

    /// Draws a sprite at local pixel coordinates. Only the monochrome
    /// variant implements this.
    pub fn draw_sprite(&mut self, id: usize, sprite: &Sprite, x: u8, y: u8) -> (r: Result<
        Vec<Vec<u8>>,
        DrawError,
    >)
        requires
            old(self).wf(),
            sprite@.tile.is_8x8(),
            cache_has(old(self).spec_cache(), sprite@.tile) || old(self).spec_cache().len()
                < 255,
        ensures
            final(self).wf(),
            final(self).spec_screen() == old(self).spec_screen(),
            final(self).is_gameboy() == old(self).is_gameboy(),
            old(self).is_gameboy() ==> (r matches Ok(cmds) && cmds.deep_view()
                =~~= spec_draw_sprite_cmds(
                old(self).spec_cache(),
                sprite@.tile,
                (id % 256) as u8,
                x,
                y,
            ) && final(self).spec_cache() =~= spec_cache_after(
                old(self).spec_cache(),
                sprite@.tile,
            )),
            !old(self).is_gameboy() ==> (r matches Err(e) && e == DrawError::Unsupported
                && *final(self) == *old(self)),
    {
        match self {
            Driver::GameBoy(d) => Ok(d.draw_sprite(id, sprite, x, y)),
            Driver::GameBoyColor(_) => Err(DrawError::Unsupported),
        }
    }
}


/// Mathematical content of a driver: which variant it is, its screen
/// placement, and the device tile cache.
#[verifier::ext_equal]
pub ghost struct DriverView {
    pub gameboy: bool,
    pub screen: Screen,
    pub cache: Seq<TileView>,
}

impl DriverView {
    /// Screen placement is bounded, cached tiles are complete 8 x 8 tiles,
    /// no two cache entries share content, and the cache fits the one-byte
    /// device index space.
    pub open spec fn wf(self) -> bool {
        &&& self.screen.wf()
        &&& cache_distinct(self.cache)
        &&& forall|i: int| 0 <= i < self.cache.len() ==> self.cache[i].is_8x8()
        &&& self.cache.len() <= 255
    }
}

impl View for Driver {
    type V = DriverView;

    open spec fn view(&self) -> DriverView {
        DriverView {
            gameboy: self.is_gameboy(),
            screen: self.spec_screen(),
            cache: self.spec_cache(),
        }
    }
}


/// Tile-cache correctness, across any two draws against one driver. A
/// first draw of content the cache does not hold uploads it once. A second
/// draw of bit-identical content uploads nothing and reuses the same device
/// index; a draw of content differing in at least one pixel uploads again
/// and receives a distinct device index.
pub proof fn lemma_tile_cache_dedup(cache: Seq<TileView>, t1: TileView, t2: TileView)
    requires
        cache_distinct(cache),
        !cache_has(cache, t1),
    ensures
        ({
            let cache1 = spec_cache_after(cache, t1);
            &&& spec_load_cmds(cache, t1).len() == 1
            &&& cache_distinct(cache1)
            &&& (t2 == t1 ==> spec_load_cmds(cache1, t2).len() == 0 && spec_device_index(
                cache1,
                t2,
            ) == spec_device_index(cache, t1))
            &&& (t2 != t1 && !cache_has(cache, t2) ==> spec_load_cmds(cache1, t2).len() == 1
                && spec_device_index(cache1, t2) != spec_device_index(cache, t1))
        }),
{
    let cache1 = spec_cache_after(cache, t1);
    assert(cache1 =~= cache.push(t1));
    assert(cache_distinct(cache1)) by {
        assert(forall|i: int| 0 <= i < cache.len() ==> #[trigger] cache1[i] == cache[i]);
        assert(cache1[cache.len() as int] == t1);
    }
    assert(cache1[cache.len() as int] == t1);
    assert(cache_has(cache1, t1));
    if t2 == t1 {
        let k = cache_index(cache1, t1);
        assert(0 <= k < cache1.len() && cache1[k] == t1);
        assert(k == cache.len()) by {
            if k < cache.len() {
                assert(cache[k] == cache1[k]);
                assert(cache_has(cache, t1));
            }
        }
    } else if !cache_has(cache, t2) {
        assert(!cache_has(cache1, t2)) by {
            if cache_has(cache1, t2) {
                let k = cache_index(cache1, t2);
                assert(0 <= k < cache1.len() && cache1[k] == t2);
                assert(k < cache.len() ==> cache[k] == t2);
            }
        }
    }
}


/// After resolving `t` against the cache, the cache holds `t`, and it grew
/// exactly when it did not hold `t` before.
pub proof fn lemma_cache_after_has(cache: Seq<TileView>, t: TileView)
    ensures
        cache_has(spec_cache_after(cache, t), t),
        cache_has(cache, t) ==> spec_cache_after(cache, t) == cache,
        !cache_has(cache, t) ==> spec_cache_after(cache, t).len() == cache.len() + 1,
{
    if !cache_has(cache, t) {
        let cache2 = cache.push(t);
        assert(cache2[cache.len() as int] == t);
    }
}

/// Resolving one tile never removes another from the cache.
pub proof fn lemma_cache_after_keeps(cache: Seq<TileView>, t: TileView, u: TileView)
    ensures
        cache_has(cache, u) ==> cache_has(spec_cache_after(cache, t), u),
{
    if cache_has(cache, u) {
        let k = choose|i: int| 0 <= i < cache.len() && cache[i] == u;
        assert(spec_cache_after(cache, t)[k] == u);
    }
}

/// Resolving a tile the distinct cache does not hold keeps it distinct,
/// and the tile's device index is the same before and after.
pub proof fn lemma_device_index_stable(cache: Seq<TileView>, t: TileView)
    requires
        cache_distinct(cache),
    ensures
        cache_distinct(spec_cache_after(cache, t)),
        spec_device_index(spec_cache_after(cache, t), t) == spec_device_index(cache, t),
{
    let cache1 = spec_cache_after(cache, t);
    if cache_has(cache, t) {
    } else {
        assert(cache1 =~= cache.push(t));
        assert(cache_distinct(cache1)) by {
            assert(forall|i: int| 0 <= i < cache.len() ==> #[trigger] cache1[i] == cache[i]);
            assert(cache1[cache.len() as int] == t);
        }
        assert(cache1[cache.len() as int] == t);
        assert(cache_has(cache1, t));
        let k = cache_index(cache1, t);
        assert(0 <= k < cache1.len() && cache1[k] == t);
        assert(k == cache.len()) by {
            if k < cache.len() {
                assert(cache[k] == cache1[k]);
                assert(cache_has(cache, t));
            }
        }
    }
}

} // verus!

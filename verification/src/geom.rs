//! World-space geometry: points, axis-aligned bounding boxes and client
//! screen placement, with the world-to-local pixel mapping.
//!
//! Coordinates are fixed-point integers: one world unit is [`COORD_SCALE`]
//! coordinate steps. Screen placement is bounded by [`COORD_LIMIT`] so that
//! the pixel mapping can be computed without overflow; sprite positions may
//! be any `i64` value, since the mapping is only applied to points that a
//! screen contains.

use vstd::prelude::*;
use vstd::arithmetic::div_mod::{
    lemma_fundamental_div_mod, lemma_mod_pos_bound, lemma_multiply_divide_lt,
};

verus! {

/// Number of fixed-point coordinate steps in one world unit.
pub const COORD_SCALE: i64 = 1000;

/// Bound on screen placement coordinates and screen sizes (2^45 steps).
pub const COORD_LIMIT: i64 = 0x2000_0000_0000;

/// A position in world space, in fixed-point coordinate steps.
#[derive(Clone, Copy, Debug, PartialEq, Eq, Structural)]
pub struct Point {
    pub x: i64,
    pub y: i64,
}

/// An axis-aligned box in world space. The empty box is represented with
/// inverted bounds, so that merging it with any box returns that box.
#[derive(Clone, Copy, Debug, PartialEq, Eq, Structural)]
pub struct Aabb {
    pub min_x: i64,
    pub min_y: i64,
    pub max_x: i64,
    pub max_y: i64,
}

impl Aabb {
    /// A box that contains at least one point.
    pub open spec fn spec_valid(self) -> bool {
        self.min_x <= self.max_x && self.min_y <= self.max_y
    }

    /// The empty box, with inverted bounds.
    pub open spec fn spec_invalid() -> Aabb {
        Aabb { min_x: i64::MAX, min_y: i64::MAX, max_x: i64::MIN, max_y: i64::MIN }
    }

    /// The smallest box enclosing both arguments.
    pub open spec fn spec_merge(self, other: Aabb) -> Aabb {
        Aabb {
            min_x: if self.min_x <= other.min_x { self.min_x } else { other.min_x },
            min_y: if self.min_y <= other.min_y { self.min_y } else { other.min_y },
            max_x: if self.max_x >= other.max_x { self.max_x } else { other.max_x },
            max_y: if self.max_y >= other.max_y { self.max_y } else { other.max_y },
        }
    }

    /// Builds the empty box.
    pub fn new_invalid() -> (r: Self)
        ensures
            r == Self::spec_invalid(),
    {
        Aabb { min_x: i64::MAX, min_y: i64::MAX, max_x: i64::MIN, max_y: i64::MIN }
    }

    /// Whether the box contains at least one point.
    pub fn valid(&self) -> (r: bool)
        ensures
            r == self.spec_valid(),
    {
        self.min_x <= self.max_x && self.min_y <= self.max_y
    }

    /// Enlarges `self` just enough to also enclose `other`.
    pub fn merge(&mut self, other: &Aabb)
        ensures
            *final(self) == old(self).spec_merge(*other),
    {
        if other.min_x < self.min_x {
            self.min_x = other.min_x;
        }
        if other.min_y < self.min_y {
            self.min_y = other.min_y;
        }
        if other.max_x > self.max_x {
            self.max_x = other.max_x;
        }
        if other.max_y > self.max_y {
            self.max_y = other.max_y;
        }
    }
}

/// A client's placement descriptor: world position, physical size in world
/// space, and pixel resolution.
#[derive(Clone, Copy, Debug, PartialEq, Eq, Structural)]
pub struct Screen {
    /// World position of the screen's top-left corner.
    pub pos: Point,
    /// Physical extent in world space; both components are positive.
    pub size: Point,
    /// Pixel resolution along the x axis.
    pub res_x: usize,
    /// Pixel resolution along the y axis.
    pub res_y: usize,
}

impl Screen {
    /// Placement bounds that keep the pixel mapping free of overflow.
    pub open spec fn wf(self) -> bool {
        &&& -COORD_LIMIT <= self.pos.x <= COORD_LIMIT
        &&& -COORD_LIMIT <= self.pos.y <= COORD_LIMIT
        &&& 0 < self.size.x <= COORD_LIMIT
        &&& 0 < self.size.y <= COORD_LIMIT
        &&& 0 < self.res_x <= 256
        &&& 0 < self.res_y <= 256
    }

    /// The screen's extent as a box: from `pos` to `pos + size`.
    pub open spec fn spec_bounding_box(self) -> Aabb {
        Aabb {
            min_x: self.pos.x,
            min_y: self.pos.y,
            max_x: (self.pos.x + self.size.x) as i64,
            max_y: (self.pos.y + self.size.y) as i64,
        }
    }

    /// Half-open containment: `pos <= p < pos + size` on both axes.
    pub open spec fn spec_contains(self, p: Point) -> bool {
        &&& self.pos.x <= p.x < self.pos.x + self.size.x
        &&& self.pos.y <= p.y < self.pos.y + self.size.y
    }

    /// World-to-local pixel mapping along the x axis:
    /// `floor((wx - pos.x) / size.x * res_x)`.
    pub open spec fn spec_local_x(self, wx: int) -> int {
        ((wx - self.pos.x) * self.res_x) / (self.size.x as int)
    }

    /// World-to-local pixel mapping along the y axis.
    pub open spec fn spec_local_y(self, wy: int) -> int {
        ((wy - self.pos.y) * self.res_y) / (self.size.y as int)
    }

    /// Inverse mapping along the x axis: the world coordinate of the left
    /// edge of local pixel column `lx`.
    pub open spec fn spec_world_x(self, lx: int) -> int {
        self.pos.x + (lx * self.size.x) / (self.res_x as int)
    }

    /// Inverse mapping along the y axis.
    pub open spec fn spec_world_y(self, ly: int) -> int {
        self.pos.y + (ly * self.size.y) / (self.res_y as int)
    }

    /// The default placement of the first documented device variant:
    /// origin, 14.8 x 9.0 world units, 160 x 144 pixels.
    pub fn gameboy() -> (s: Self)
        ensures
            s == (Screen {
                pos: Point { x: 0, y: 0 },
                size: Point { x: 14800, y: 9000 },
                res_x: 160usize,
                res_y: 144usize,
            }),
            s.wf(),
    {
        Screen {
            pos: Point { x: 0, y: 0 },
            size: Point { x: 14800, y: 9000 },
            res_x: 160,
            res_y: 144,
        }
    }

    /// The screen's extent as a box.
    pub fn bounding_box(&self) -> (r: Aabb)
        requires
            self.wf(),
        ensures
            r == self.spec_bounding_box(),
            r.spec_valid(),
    {
        Aabb {
            min_x: self.pos.x,
            min_y: self.pos.y,
            max_x: self.pos.x + self.size.x,
            max_y: self.pos.y + self.size.y,
        }
    }

    /// Half-open containment test. Callers must pre-filter with this before
    /// mapping a point to pixel coordinates.
    pub fn contains(&self, p: &Point) -> (r: bool)
        requires
            self.wf(),
        ensures
            r == self.spec_contains(*p),
    {
        p.x >= self.pos.x && p.x < self.pos.x + self.size.x && p.y >= self.pos.y && p.y
            < self.pos.y + self.size.y
    }

    /// Maps a contained world point to local pixel coordinates. The mapping
    /// truncates; it does not round.
    pub fn to_local(&self, p: &Point) -> (r: (u8, u8))
        requires
            self.wf(),
            self.spec_contains(*p),
        ensures
            r.0 == self.spec_local_x(p.x as int),
            r.1 == self.spec_local_y(p.y as int),
            r.0 < self.res_x,
            r.1 < self.res_y,
    {
        let dx: u64 = (p.x - self.pos.x) as u64;
        let dy: u64 = (p.y - self.pos.y) as u64;
        proof {
            assert(dx * self.res_x < self.size.x * self.res_x) by (nonlinear_arith)
                requires
                    dx < self.size.x,
                    0 < self.res_x,
            ;
            lemma_multiply_divide_lt(dx * self.res_x, self.size.x as int, self.res_x as int);
            assert(dx * self.res_x <= COORD_LIMIT * 256) by (nonlinear_arith)
                requires
                    0 <= dx <= COORD_LIMIT,
                    0 <= self.res_x <= 256,
            ;
            assert(dy * self.res_y < self.size.y * self.res_y) by (nonlinear_arith)
                requires
                    dy < self.size.y,
                    0 < self.res_y,
            ;
            lemma_multiply_divide_lt(dy * self.res_y, self.size.y as int, self.res_y as int);
            assert(dy * self.res_y <= COORD_LIMIT * 256) by (nonlinear_arith)
                requires
                    0 <= dy <= COORD_LIMIT,
                    0 <= self.res_y <= 256,
            ;
        }
        let lx: u64 = dx * (self.res_x as u64) / (self.size.x as u64);
        let ly: u64 = dy * (self.res_y as u64) / (self.size.y as u64);
        (lx as u8, ly as u8)
    }
}

/// One axis of the round-trip bound: mapping a world coordinate to a pixel
/// column and back recovers it to within one pixel unit of error. With
/// `l = floor((w - pos) * res / size)` and `w' = pos + floor(l * size / res)`,
/// the loss `w - w'` is nonnegative and below `size / res + 1`.
proof fn lemma_axis_roundtrip(pos: int, size: int, res: int, w: int)
    requires
        0 < size,
        0 < res,
        pos <= w < pos + size,
    ensures
        ({
            let l = ((w - pos) * res) / size;
            let w2 = pos + (l * size) / res;
            0 <= w - w2 && (w - w2) * res < size + res
        }),
{
    let d = w - pos;
    let l = (d * res) / size;
    let m = (l * size) / res;
    assert(0 <= d * res) by (nonlinear_arith)
        requires
            0 <= d,
            0 < res,
    ;
    lemma_fundamental_div_mod(d * res, size);
    lemma_mod_pos_bound(d * res, size);
    let rem1 = (d * res) % size;
    assert(0 <= l) by (nonlinear_arith)
        requires
            d * res == size * l + rem1,
            0 <= d * res,
            0 <= rem1 < size,
            0 < size,
    ;
    assert(0 <= l * size) by (nonlinear_arith)
        requires
            0 <= l,
            0 < size,
    ;
    lemma_fundamental_div_mod(l * size, res);
    lemma_mod_pos_bound(l * size, res);
    let rem2 = (l * size) % res;
    assert((d - m) * res == rem1 + rem2) by (nonlinear_arith)
        requires
            d * res == size * l + rem1,
            l * size == res * m + rem2,
    ;
    assert(0 <= d - m) by (nonlinear_arith)
        requires
            (d - m) * res == rem1 + rem2,
            0 <= rem1,
            0 <= rem2,
            0 < res,
    ;
}

/// Coordinate mapping bound: for any point a screen contains, the
/// world-to-local pixel mapping followed by the inverse mapping recovers the
/// point to within one pixel unit of error on each axis (the mapping
/// truncates, it does not round). One pixel unit spans `size / res` world
/// coordinate steps, so the bound reads `(p - p') * res < size + res`.
pub proof fn lemma_map_roundtrip(s: Screen, p: Point)
    requires
        s.wf(),
        s.spec_contains(p),
    ensures
        ({
            let wx = s.spec_world_x(s.spec_local_x(p.x as int));
            0 <= p.x - wx && (p.x - wx) * s.res_x < s.size.x + s.res_x
        }),
        ({
            let wy = s.spec_world_y(s.spec_local_y(p.y as int));
            0 <= p.y - wy && (p.y - wy) * s.res_y < s.size.y + s.res_y
        }),
{
    lemma_axis_roundtrip(s.pos.x as int, s.size.x as int, s.res_x as int, p.x as int);
    lemma_axis_roundtrip(s.pos.y as int, s.size.y as int, s.res_y as int, p.y as int);
}

} // verus!

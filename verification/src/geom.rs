//! Grid geometry: positions, cells, the grid configuration and the
//! squared-distance key used to find the nearest cell.

use vstd::prelude::*;

verus! {

/// A navigation-grid position (x, y, layer). The game runs on a single
/// layer, so `z` is 0 for every position it produces.
#[derive(Clone, Copy, Debug, PartialEq, Eq, Hash, Structural)]
pub struct GridPos {
    pub x: u32,
    pub y: u32,
    pub z: u32,
}

/// A signed grid cell, used where neighbours of border cells may fall
/// outside the grid.
#[derive(Clone, Copy, Debug, PartialEq, Eq, Hash, Structural)]
pub struct Cell {
    pub x: i32,
    pub y: i32,
}

impl GridPos {
    pub fn new(x: u32, y: u32, z: u32) -> (p: GridPos)
        ensures
            p == (GridPos { x, y, z }),
    {
        GridPos { x, y, z }
    }
}

impl Cell {
    pub fn new(x: i32, y: i32) -> (c: Cell)
        ensures
            c == (Cell { x, y }),
    {
        Cell { x, y }
    }
}

/// Grid dimensions in tiles, and the integer pixel scale of the camera.
#[derive(Clone, Copy, Debug, PartialEq, Eq, Structural)]
pub struct GridConfig {
    pub width: u32,
    pub height: u32,
    pub pixel_scale: u32,
}

/// Whether a signed cell lies inside a `width` × `height` grid.
pub open spec fn cell_in_grid(c: Cell, width: u32, height: u32) -> bool {
    0 <= c.x && 0 <= c.y && c.x < width && c.y < height
}

/// Whether a cell lies on the outer border of a `width` × `height` grid.
pub open spec fn on_border(x: u32, y: u32, width: u32, height: u32) -> bool {
    &&& x < width
    &&& y < height
    &&& (x == 0 || y == 0 || x == width - 1 || y == height - 1)
}

impl GridConfig {
    /// Grid center coordinate.
    pub fn center(&self) -> (c: GridPos)
        ensures
            c == (GridPos { x: self.width / 2, y: self.height / 2, z: 0 }),
    {
        GridPos { x: self.width / 2, y: self.height / 2, z: 0 }
    }

    /// A configuration from whole-tile counts that fit the screen: each
    /// side is rounded down to a multiple of `chunk_size`, so that every
    /// cell belongs to a full pathfinding chunk.
    pub fn from_tile_counts(tiles_w: u32, tiles_h: u32, pixel_scale: u32, chunk_size: u32) -> (c: GridConfig)
        requires
            chunk_size > 0,
        ensures
            c.width == tiles_w / chunk_size * chunk_size,
            c.height == tiles_h / chunk_size * chunk_size,
            c.width % chunk_size == 0,
            c.height % chunk_size == 0,
            c.width <= tiles_w < c.width + chunk_size,
            c.height <= tiles_h < c.height + chunk_size,
            c.pixel_scale == pixel_scale,
    {
        proof {
            lemma_round_down(tiles_w as int, chunk_size as int);
            lemma_round_down(tiles_h as int, chunk_size as int);
        }
        GridConfig {
            width: tiles_w / chunk_size * chunk_size,
            height: tiles_h / chunk_size * chunk_size,
            pixel_scale,
        }
    }

    /// Whether the cell `(x, y)` is on the map border (a potential enemy
    /// spawn point).
    pub fn is_edge(&self, x: u32, y: u32) -> (b: bool)
        ensures
            b == on_border(x, y, self.width, self.height),
    {
        x < self.width && y < self.height && (x == 0 || y == 0 || x == self.width - 1 || y
            == self.height - 1)
    }
}

/// Whether `cell` lies inside the configured grid.
pub fn in_bounds(cell: Cell, config: &GridConfig) -> (b: bool)
    ensures
        b == cell_in_grid(cell, config.width, config.height),
{
    cell.x >= 0 && cell.y >= 0 && (cell.x as u32) < config.width && (cell.y as u32)
        < config.height
}

/// Signed axis offset between two unsigned coordinates, each read as a
/// 32-bit signed integer.
pub open spec fn axis_delta(a: u32, b: u32) -> int {
    (a as i32) as int - (b as i32) as int
}

/// Squared planar distance key between two positions, computed the way the
/// game computes it: coordinates read as `i32`, layers ignored.
pub open spec fn dist_key(c: GridPos, p: GridPos) -> int {
    axis_delta(c.x, p.x) * axis_delta(c.x, p.x) + axis_delta(c.y, p.y) * axis_delta(c.y, p.y)
}

/// The distance key between `c` and `p` fits the signed 32-bit arithmetic
/// the game does it in.
pub open spec fn dist_key_fits(c: GridPos, p: GridPos) -> bool {
    dist_key(c, p) <= i32::MAX
}

proof fn lemma_square_nonneg(a: int)
    ensures
        a * a >= 0,
{
    assert(a * a >= 0) by (nonlinear_arith);
}

proof fn lemma_square_bound(a: int)
    requires
        -0x1_0000_0000 <= a <= 0x1_0000_0000,
    ensures
        a * a <= 0x1_0000_0000_0000_0000,
{
    assert(a * a <= 0x1_0000_0000_0000_0000) by (nonlinear_arith)
        requires
            -0x1_0000_0000 <= a <= 0x1_0000_0000,
    ;
}

/// Squared distance key between `c` and `p`.
pub fn distance_key(c: GridPos, p: GridPos) -> (k: u32)
    requires
        dist_key_fits(c, p),
    ensures
        k as int == dist_key(c, p),
{
    let dx: i64 = (c.x as i32) as i64 - (p.x as i32) as i64;
    let dy: i64 = (c.y as i32) as i64 - (p.y as i32) as i64;
    let dx128: i128 = dx as i128;
    let dy128: i128 = dy as i128;
    proof {
        lemma_square_bound(dx as int);
        lemma_square_bound(dy as int);
        lemma_square_nonneg(dx as int);
        lemma_square_nonneg(dy as int);
    }
    let sum: i128 = dx128 * dx128 + dy128 * dy128;
    sum as u32
}

/// Rounding down to a multiple of `d` gives a multiple of `d` within `d`
/// below `n`.
proof fn lemma_round_down(n: int, d: int)
    requires
        0 <= n,
        0 < d,
    ensures
        0 <= n / d * d <= n < n / d * d + d,
        (n / d * d) % d == 0,
{
    vstd::arithmetic::div_mod::lemma_fundamental_div_mod(n, d);
    vstd::arithmetic::div_mod::lemma_mod_pos_bound(n, d);
    vstd::arithmetic::div_mod::lemma_mod_multiples_basic(n / d, d);
    vstd::arithmetic::div_mod::lemma_div_pos_is_pos(n, d);
    let q = n / d;
    let r = n % d;
    assert(n == q * d + r) by (nonlinear_arith)
        requires
            n == d * q + r,
    ;
    assert(0 <= q * d) by (nonlinear_arith)
        requires
            0 <= q,
            0 < d,
    ;
}

/// Whether the distance key between `c` and `p` fits in `i32`.
pub fn distance_key_fits(c: GridPos, p: GridPos) -> (b: bool)
    ensures
        b == dist_key_fits(c, p),
{
    let dx: i64 = (c.x as i32) as i64 - (p.x as i32) as i64;
    let dy: i64 = (c.y as i32) as i64 - (p.y as i32) as i64;
    let dx128: i128 = dx as i128;
    let dy128: i128 = dy as i128;
    proof {
        lemma_square_bound(dx as int);
        lemma_square_bound(dy as int);
        lemma_square_nonneg(dx as int);
        lemma_square_nonneg(dy as int);
    }
    let sum: i128 = dx128 * dx128 + dy128 * dy128;
    sum <= 0x7fff_ffff
}

} // verus!

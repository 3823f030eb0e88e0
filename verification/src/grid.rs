//! The tile grid that the navigation mesh is baked from.
//!
//! A grid is `width` by `height` square tiles. Each tile has a traversal cost;
//! a cost below [`WALKABLE_THRESHOLD`] marks an obstacle. Tiles are stored row
//! by row. In world space a tile is `2 * half_cell` units wide, and the centre
//! of tile `(0, 0)` lies at the grid's origin.

use vstd::prelude::*;

verus! {

/// Costs below this value mark a tile that cannot be walked on.
pub const WALKABLE_THRESHOLD: i8 = 1;

/// World coordinates of corners stay within this bound on either side of
/// zero, so that each is held exactly by a single-precision number.
pub const COORD_LIMIT: i32 = 16_777_216;

/// The largest number of corners a grid may have.
pub const CORNER_LIMIT: u64 = 0x7fff_ffff;

/// Whether a tile of this cost can be walked on.
pub open spec fn walkable(cost: i8) -> bool {
    cost >= WALKABLE_THRESHOLD
}

/// The traversal cost of one tile.
#[derive(Clone, Copy, Debug)]
pub struct TileCost(pub i8);

impl TileCost {
    pub fn new(cost: i8) -> (r: TileCost)
        ensures
            r.0 == cost,
    {
        TileCost(cost)
    }

    pub fn cost(&self) -> (r: i8)
        ensures
            r == self.0,
    {
        self.0
    }

    pub fn is_walkable(&self) -> (r: bool)
        ensures
            r == walkable(self.0),
    {
        self.0 >= WALKABLE_THRESHOLD
    }

    /// The index of the texture a tile of this cost is drawn with: 1 for an
    /// obstacle, 0 for open ground.
    pub fn texture_index(&self) -> (r: u32)
        ensures
            r == (if walkable(self.0) { 0u32 } else { 1u32 }),
    {
        if self.0 < WALKABLE_THRESHOLD {
            1
        } else {
            0
        }
    }
}

impl Default for TileCost {
    fn default() -> (r: TileCost)
        ensures
            r.0 == 1,
    {
        TileCost(1)
    }
}

/// The size of a map, in tiles.
#[derive(Clone, Copy, Debug)]
pub struct MapDimensions {
    pub width: u32,
    pub height: u32,
}

/// The map stage of the simulation and the size of map it sets up.
#[derive(Clone, Copy, Debug)]
pub struct MapPlugin;

impl MapPlugin {
    /// The size of the map that is generated at start-up.
    pub fn dimensions(&self) -> (r: MapDimensions)
        ensures
            r.width == 204,
            r.height == 102,
    {
        MapDimensions { width: 204, height: 102 }
    }
}

/// A grid was handed to the baker that has no tiles: its width or its height
/// is zero.
#[derive(Clone, Copy, Debug)]
pub struct MapSizeError {
    pub width: u32,
    pub height: u32,
}

/// What a grid is, mathematically.
pub struct GridView {
    pub width: int,
    pub height: int,
    pub half_cell: int,
    pub origin_x: int,
    pub origin_y: int,
    pub costs: Seq<i8>,
}

impl GridView {
    /// What every [`TileGrid`] satisfies.
    pub open spec fn valid(self) -> bool {
        &&& 0 <= self.width
        &&& 0 <= self.height
        &&& self.costs.len() == self.width * self.height
        &&& 1 <= self.half_cell <= COORD_LIMIT
        &&& (self.width + 1) * (self.height + 1) <= CORNER_LIMIT
        &&& -COORD_LIMIT <= self.origin_x - self.half_cell
        &&& self.origin_x + (2 * self.width - 1) * self.half_cell <= COORD_LIMIT
        &&& -COORD_LIMIT <= self.origin_y - self.half_cell
        &&& self.origin_y + (2 * self.height - 1) * self.half_cell <= COORD_LIMIT
    }

    pub open spec fn in_grid(self, x: int, y: int) -> bool {
        0 <= x < self.width && 0 <= y < self.height
    }

    /// The cost of tile `(x, y)`.
    pub open spec fn cost_at(self, x: int, y: int) -> i8 {
        self.costs[y * self.width + x]
    }

    /// Whether `(x, y)` is a tile of the grid that can be walked on.
    pub open spec fn open_tile(self, x: int, y: int) -> bool {
        self.in_grid(x, y) && walkable(self.cost_at(x, y))
    }

    /// Whether `(i, j)` is a corner of the grid: corner `(i, j)` is the low
    /// corner of tile `(i, j)`, so corners run one further than tiles.
    pub open spec fn is_corner(self, i: int, j: int) -> bool {
        0 <= i <= self.width && 0 <= j <= self.height
    }

    /// The world coordinate of corner column `i`.
    pub open spec fn world_x(self, i: int) -> int {
        self.origin_x + (2 * i - 1) * self.half_cell
    }

    /// The world coordinate of corner row `j`.
    pub open spec fn world_y(self, j: int) -> int {
        self.origin_y + (2 * j - 1) * self.half_cell
    }
}

/// How many of the first `n` costs are walkable.
pub open spec fn walkable_before(costs: Seq<i8>, n: int) -> int
    decreases n,
{
    if n <= 0 {
        0
    } else {
        walkable_before(costs, n - 1) + if walkable(costs[n - 1]) {
            1int
        } else {
            0int
        }
    }
}

pub proof fn lemma_walkable_before_bounds(costs: Seq<i8>, n: int)
    requires
        0 <= n,
    ensures
        0 <= walkable_before(costs, n) <= n,
    decreases n,
{
    if n > 0 {
        lemma_walkable_before_bounds(costs, n - 1);
    }
}

pub proof fn lemma_walkable_before_monotonic(costs: Seq<i8>, m: int, n: int)
    requires
        0 <= m <= n,
    ensures
        walkable_before(costs, m) <= walkable_before(costs, n),
        walkable_before(costs, n) - walkable_before(costs, m) <= n - m,
    decreases n - m,
{
    if m < n {
        lemma_walkable_before_monotonic(costs, m, n - 1);
    }
}

/// A rectangular grid of tile costs with its placement in world space.
pub struct TileGrid {
    width: u32,
    height: u32,
    half_cell: i32,
    origin_x: i32,
    origin_y: i32,
    costs: Vec<i8>,
}

impl View for TileGrid {
    type V = GridView;

    closed spec fn view(&self) -> GridView {
        GridView {
            width: self.width as int,
            height: self.height as int,
            half_cell: self.half_cell as int,
            origin_x: self.origin_x as int,
            origin_y: self.origin_y as int,
            costs: self.costs@,
        }
    }
}

impl TileGrid {
    #[verifier::type_invariant]
    pub open spec fn well_formed(self) -> bool {
        self@.valid()
    }

    /// Builds a grid from its costs, given row by row. The result is `None`
    /// exactly when the parts do not make a grid that world space can hold:
    /// the number of costs is not `width * height`, the half cell size is not
    /// positive, there are too many corners to number, or a corner would fall
    /// outside the coordinate range.
    pub fn new(
        width: u32,
        height: u32,
        half_cell: i32,
        origin_x: i32,
        origin_y: i32,
        costs: Vec<i8>,
    ) -> (r: Option<TileGrid>)
        ensures
            r.is_some() == (GridView {
                width: width as int,
                height: height as int,
                half_cell: half_cell as int,
                origin_x: origin_x as int,
                origin_y: origin_y as int,
                costs: costs@,
            }).valid(),
            r matches Some(g) ==> g@ == (GridView {
                width: width as int,
                height: height as int,
                half_cell: half_cell as int,
                origin_x: origin_x as int,
                origin_y: origin_y as int,
                costs: costs@,
            }),
    {
        let w: u64 = width as u64;
        let h: u64 = height as u64;
        assert(w * h <= 0xffff_ffff * 0xffff_ffff) by (nonlinear_arith)
            requires
                0 <= w <= 0xffff_ffff,
                0 <= h <= 0xffff_ffff,
        ;
        if costs.len() as u64 != w * h {
            return None;
        }
        if half_cell < 1 || half_cell > COORD_LIMIT {
            return None;
        }
        if w > CORNER_LIMIT || h > CORNER_LIMIT {
            assert((w + 1) * (h + 1) > CORNER_LIMIT) by (nonlinear_arith)
                requires
                    w > CORNER_LIMIT || h > CORNER_LIMIT,
                    0 <= w,
                    0 <= h,
            ;
            return None;
        }
        assert((w + 1) * (h + 1) <= 0x8000_0000 * 0x8000_0000) by (nonlinear_arith)
            requires
                0 <= w <= 0x7fff_ffff,
                0 <= h <= 0x7fff_ffff,
        ;
        if (w + 1) * (h + 1) > CORNER_LIMIT {
            return None;
        }
        let half: i64 = half_cell as i64;
        assert(-0x100_0000 <= (2 * (width as int) - 1) * (half as int) <= 0x2_0000_0000 * 0x100_0000)
            by (nonlinear_arith)
            requires
                0 <= width <= 0xffff_ffff,
                1 <= half <= 0x100_0000,
        ;
        assert(-0x100_0000 <= (2 * (height as int) - 1) * (half as int) <= 0x2_0000_0000
            * 0x100_0000) by (nonlinear_arith)
            requires
                0 <= height <= 0xffff_ffff,
                1 <= half <= 0x100_0000,
        ;
        let span_x: i64 = (2 * (width as i64) - 1) * half;
        let span_y: i64 = (2 * (height as i64) - 1) * half;
        let limit: i64 = COORD_LIMIT as i64;
        let ox: i64 = origin_x as i64;
        let oy: i64 = origin_y as i64;
        if ox - half < -limit || ox + span_x > limit || oy - half < -limit || oy + span_y > limit {
            return None;
        }
        Some(TileGrid { width, height, half_cell, origin_x, origin_y, costs })
    }

    pub fn width(&self) -> (r: u32)
        ensures
            r == self@.width,
    {
        self.width
    }

    pub fn height(&self) -> (r: u32)
        ensures
            r == self@.height,
    {
        self.height
    }

    pub fn half_cell(&self) -> (r: i32)
        ensures
            r == self@.half_cell,
    {
        self.half_cell
    }

    pub fn origin(&self) -> (r: (i32, i32))
        ensures
            r.0 == self@.origin_x,
            r.1 == self@.origin_y,
    {
        (self.origin_x, self.origin_y)
    }

    /// The cost of tile `(x, y)`, `None` outside the grid.
    pub fn cost(&self, x: u32, y: u32) -> (r: Option<TileCost>)
        ensures
            self@.valid(),
            r.is_some() == self@.in_grid(x as int, y as int),
            r matches Some(c) ==> c.0 == self@.cost_at(x as int, y as int),
    {
        proof {
            use_type_invariant(self);
        }
        if x < self.width && y < self.height {
            let index: usize = self.tile_index(x, y);
            Some(TileCost(self.costs[index]))
        } else {
            None
        }
    }

    /// Where tile `(x, y)` stands in the row-by-row order.
    pub(crate) fn tile_index(&self, x: u32, y: u32) -> (r: usize)
        requires
            self@.in_grid(x as int, y as int),
        ensures
            self@.valid(),
            r == y * self@.width + x,
            r < self@.costs.len(),
    {
        proof {
            use_type_invariant(self);
            lemma_tile_index_in_range(self@, x as int, y as int);
        }
        let row: u64 = (y as u64) * (self.width as u64);
        (row + x as u64) as usize
    }

    /// The world coordinates of corner `(i, j)`.
    pub(crate) fn corner_position(&self, i: u32, j: u32) -> (r: (i32, i32))
        requires
            self@.is_corner(i as int, j as int),
        ensures
            r.0 == self@.world_x(i as int),
            r.1 == self@.world_y(j as int),
            -COORD_LIMIT <= r.0 <= COORD_LIMIT,
            -COORD_LIMIT <= r.1 <= COORD_LIMIT,
    {
        proof {
            use_type_invariant(self);
            lemma_world_in_range(self@, i as int, j as int);
        }
        let half: i64 = self.half_cell as i64;
        let x: i64 = self.origin_x as i64 + (2 * (i as i64) - 1) * half;
        let y: i64 = self.origin_y as i64 + (2 * (j as i64) - 1) * half;
        (x as i32, y as i32)
    }

    /// The width and height of the grid in world space.
    pub fn world_size(&self) -> (r: (u32, u32))
        ensures
            r.0 == 2 * self@.half_cell * self@.width,
            r.1 == 2 * self@.half_cell * self@.height,
    {
        proof {
            use_type_invariant(self);
            lemma_world_in_range(self@, self@.width, self@.height);
            assert(2 * self@.half_cell * self@.width == (2 * self@.width - 1) * self@.half_cell
                + self@.half_cell) by (nonlinear_arith);
            assert(2 * self@.half_cell * self@.height == (2 * self@.height - 1) * self@.half_cell
                + self@.half_cell) by (nonlinear_arith);
            assert(0 <= 2 * self@.half_cell * self@.width && 0 <= 2 * self@.half_cell
                * self@.height) by (nonlinear_arith)
                requires
                    0 <= self@.half_cell,
                    0 <= self@.width,
                    0 <= self@.height,
            ;
        }
        let cell: u64 = 2 * (self.half_cell as u64);
        ((cell * (self.width as u64)) as u32, (cell * (self.height as u64)) as u32)
    }

    pub(crate) fn costs(&self) -> (r: &Vec<i8>)
        ensures
            self@.valid(),
            r@ == self@.costs,
    {
        proof {
            use_type_invariant(self);
        }
        &self.costs
    }
}

/// Every corner of a grid lies within the coordinate range, and the columns
/// and rows of corners lie ever further out.
pub proof fn lemma_world_in_range(g: GridView, i: int, j: int)
    requires
        g.valid(),
        g.is_corner(i, j),
    ensures
        -COORD_LIMIT <= g.world_x(i) <= COORD_LIMIT,
        -COORD_LIMIT <= g.world_y(j) <= COORD_LIMIT,
        -COORD_LIMIT <= (2 * i - 1) * g.half_cell <= 2 * COORD_LIMIT,
        -COORD_LIMIT <= (2 * j - 1) * g.half_cell <= 2 * COORD_LIMIT,
{
    assert(-g.half_cell <= (2 * i - 1) * g.half_cell <= (2 * g.width - 1) * g.half_cell)
        by (nonlinear_arith)
        requires
            0 <= i <= g.width,
            1 <= g.half_cell,
    ;
    assert(-g.half_cell <= (2 * j - 1) * g.half_cell <= (2 * g.height - 1) * g.half_cell)
        by (nonlinear_arith)
        requires
            0 <= j <= g.height,
            1 <= g.half_cell,
    ;
}

/// Different corner columns lie at different world coordinates, and so do
/// different corner rows.
pub proof fn lemma_world_distinct(g: GridView, i1: int, i2: int)
    requires
        g.valid(),
        i1 != i2,
    ensures
        g.world_x(i1) != g.world_x(i2),
        g.world_y(i1) != g.world_y(i2),
{
    assert((2 * i1 - 1) * g.half_cell != (2 * i2 - 1) * g.half_cell) by (nonlinear_arith)
        requires
            i1 != i2,
            1 <= g.half_cell,
    ;
}

/// Two tiles of a row-by-row numbering with the same number are the same
/// tile, and the number of a tile lies below the number of tiles.
pub proof fn lemma_tile_index_apart(w: int, h: int, x1: int, y1: int, x2: int, y2: int)
    requires
        0 <= x1 < w,
        0 <= x2 < w,
        0 <= y1 < h,
        0 <= y2 < h,
    ensures
        0 <= y1 * w + x1 < w * h,
        y1 * w + x1 == y2 * w + x2 ==> x1 == x2 && y1 == y2,
{
    assert(0 <= y1 * w && y1 * w + w <= w * h) by (nonlinear_arith)
        requires
            0 <= y1 < h,
            0 <= w,
    ;
    if y1 * w + x1 == y2 * w + x2 {
        assert(y1 == y2) by (nonlinear_arith)
            requires
                0 <= x1 < w,
                0 <= x2 < w,
                y1 * w + x1 == y2 * w + x2,
        ;
    }
}

/// Every number below the number of tiles is the number of a tile.
pub proof fn lemma_tile_index_split(w: int, h: int, t: int)
    requires
        0 < w,
        0 <= t < w * h,
    ensures
        0 <= t % w < w,
        0 <= t / w < h,
        (t / w) * w + t % w == t,
{
    vstd::arithmetic::div_mod::lemma_fundamental_div_mod(t, w);
    vstd::arithmetic::div_mod::lemma_mod_bound(t, w);
    let q = t / w;
    assert(w * q == q * w) by (nonlinear_arith);
    assert(0 <= q < h) by (nonlinear_arith)
        requires
            0 < w,
            0 <= t < w * h,
            q * w + t % w == t,
            0 <= t % w < w,
    ;
}

/// The row-by-row index of a tile of the grid lies within the costs.
pub proof fn lemma_tile_index_in_range(g: GridView, x: int, y: int)
    requires
        g.valid(),
        g.in_grid(x, y),
    ensures
        0 <= y * g.width <= y * g.width + x < g.width * g.height == g.costs.len(),
        g.width * g.height <= CORNER_LIMIT,
{
    assert(0 <= y * g.width && y * g.width + g.width <= g.width * g.height) by (nonlinear_arith)
        requires
            0 <= y < g.height,
            0 <= g.width,
    ;
    assert(g.width * g.height <= (g.width + 1) * (g.height + 1)) by (nonlinear_arith)
        requires
            0 <= g.width,
            0 <= g.height,
    ;
}

} // verus!
